//! The cleanup of one repository, as a sequence of actions and replies.
//!
//! A cleanup asks its surroundings to do one thing at a time: to write a log
//! message, to run a command, or to look something up. It is told what came of
//! it and decides what is next, until it is finished.
use vstd::prelude::*;
use vstd::string::*;

use crate::branches;
use crate::branches::{
    delete_branches, doomed_branches, local_branch_exists, merged_branches, origin_head,
    read_origin_head,
};
use crate::call;
use crate::call::{failure_message, CallView, GitCall, Output};
use crate::config::{CleanOptions, OptionsView};
use crate::phases;
use crate::phases::{
    count_packs, has_lfs, phase_branches, phase_fetch, phase_indices, phase_lfs,
    phase_objects_aggressive, phase_objects_normal, phase_refs, phase_submodules, phase_worktrees,
    push_step, push_steps, read_packs, repack_incrementally, Purpose, Step, StepView, Trunk,
};
use crate::repo::{RepoInfo, RepoKind};
use crate::report;
use crate::report::sanitize_for_log;
use crate::text;
use crate::text::number;
use crate::worktrees;
use crate::worktrees::{
    is_merged, list_worktrees, remove_worktree, spare_worktrees, Worktree, WorktreeView, IDLE_SECS,
};

verus! {

/// What the surroundings of a cleanup are to do next.
#[derive(Debug)]
pub enum Action {
    /// Write a message to the log.
    Log(String),
    /// Run a command.
    Run(GitCall),
    /// Look whether there is a file `name` in the directory `dir`.
    Exists { dir: String, name: String },
    /// Find out for how many seconds nothing happened in a directory.
    Idle(String),
    /// Find out for how many milliseconds the cleanup has been going on.
    Elapsed,
    /// Nothing more: the cleanup is finished, and this is whether it went well.
    Finish(bool),
}

/// The texts of an `Action`.
pub enum ActionView {
    Log(Seq<char>),
    Run(CallView),
    Exists { dir: Seq<char>, name: Seq<char> },
    Idle(Seq<char>),
    Elapsed,
    Finish(bool),
}

impl View for Action {
    type V = ActionView;

    open spec fn view(&self) -> ActionView {
        match self {
            Action::Log(m) => ActionView::Log(m@),
            Action::Run(c) => ActionView::Run(c@),
            Action::Exists { dir, name } => ActionView::Exists { dir: dir@, name: name@ },
            Action::Idle(p) => ActionView::Idle(p@),
            Action::Elapsed => ActionView::Elapsed,
            Action::Finish(ok) => ActionView::Finish(*ok),
        }
    }
}

/// What came of an action.
#[derive(Debug)]
pub enum Reply {
    /// The message was written.
    Logged,
    /// The command was run, or could not be.
    Ran(Output),
    /// Whether there is such a file.
    Exists(bool),
    /// The seconds for which nothing happened.
    Idle(u64),
    /// The milliseconds since the cleanup began.
    Elapsed(u128),
}

/// Whether `r` is a reply to `a`.
pub open spec fn answers(a: ActionView, r: Reply) -> bool {
    match a {
        ActionView::Log(_) => r is Logged,
        ActionView::Run(_) => r is Ran,
        ActionView::Exists { .. } => r is Exists,
        ActionView::Idle(_) => r is Idle,
        ActionView::Elapsed => r is Elapsed,
        ActionView::Finish(_) => false,
    }
}

/// A cleanup in progress.
pub struct JobView {
    pub dir: Seq<char>,
    pub kind: RepoKind,
    pub opts: OptionsView,
    pub dry_run: bool,
    pub n: nat,
    pub total: nat,
    /// What is still to be done.
    pub agenda: Seq<StepView>,
    /// Whether all went well so far.
    pub ok: bool,
}

/// A cleanup in progress.
#[derive(Debug)]
pub struct CleanJob<'a> {
    repo: &'a RepoInfo,
    opts: &'a CleanOptions,
    dry_run: bool,
    n: usize,
    total: usize,
    agenda: Vec<Step>,
    ok: bool,
}

impl<'a> View for CleanJob<'a> {
    type V = JobView;

    closed spec fn view(&self) -> JobView {
        JobView {
            dir: self.repo.path@,
            kind: self.repo.kind,
            opts: self.opts@,
            dry_run: self.dry_run,
            n: self.n as nat,
            total: self.total as nat,
            agenda: phases::step_views(self.agenda@),
            ok: self.ok,
        }
    }
}

// ── messages ─────────────────────────────────────────────────────────────────

/// The place of a repository among all that are cleaned.
pub open spec fn place(n: nat, total: nat) -> Seq<char> {
    "["@ + text::decimal(n) + "/"@ + text::decimal(total) + "] "@
}

fn place_text(n: usize, total: usize) -> (r: String)
    ensures
        r@ == place(n as nat, total as nat),
{
    let mut r = "[".to_string();
    let a = number(n as u128);
    r.append(a.as_str());
    r.append("/");
    let b = number(total as u128);
    r.append(b.as_str());
    r.append("] ");
    r
}

/// The message at the beginning of a cleanup.
pub open spec fn cleaning(dir: Seq<char>, kind: RepoKind, n: nat, total: nat) -> Seq<char> {
    place(n, total) + "cleaning: "@ + report::sanitized(dir) + (if kind is Bare {
        " (bare)"@
    } else {
        ""@
    })
}

fn cleaning_text(dir: &str, kind: RepoKind, n: usize, total: usize) -> (r: String)
    ensures
        r@ == cleaning(dir@, kind, n as nat, total as nat),
{
    let mut r = place_text(n, total);
    r.append("cleaning: ");
    let d = sanitize_for_log(dir);
    r.append(d.as_str());
    r.append(
        if kind.is_bare() {
            " (bare)"
        } else {
            ""
        },
    );
    r
}

/// The message at the end of a cleanup.
pub open spec fn done(dir: Seq<char>, n: nat, total: nat, ms: nat, ok: bool) -> Seq<char> {
    place(n, total) + report::sanitized(dir) + ": done in "@ + text::decimal(ms) + "ms ("@ + (if ok {
        "ok"@
    } else {
        "some errors"@
    }) + ")"@
}

fn done_text(dir: &str, n: usize, total: usize, ms: u128, ok: bool) -> (r: String)
    ensures
        r@ == done(dir@, n as nat, total as nat, ms as nat, ok),
{
    let mut r = place_text(n, total);
    let d = sanitize_for_log(dir);
    r.append(d.as_str());
    r.append(": done in ");
    let m = number(ms);
    r.append(m.as_str());
    r.append("ms (");
    r.append(
        if ok {
            "ok"
        } else {
            "some errors"
        },
    );
    r.append(")");
    r
}

// ── plan ─────────────────────────────────────────────────────────────────────

/// The question whether a repository has submodules.
pub open spec fn submodules_question(dir: Seq<char>) -> ActionView {
    ActionView::Exists { dir, name: ".gitmodules"@ }
}

/// The question whether the repository at `dir` has submodules.
pub fn has_submodules(dir: &str) -> (a: Action)
    ensures
        a@ == submodules_question(dir@),
        a@ == (ActionView::Exists { dir: dir@, name: ".gitmodules"@ }),
{
    Action::Exists { dir: dir.to_string(), name: ".gitmodules".to_string() }
}

/// The steps `s` if `b`, none otherwise.
pub open spec fn only_if(b: bool, s: Seq<StepView>) -> Seq<StepView> {
    if b {
        s
    } else {
        Seq::<StepView>::empty()
    }
}

/// The steps that clean a repository, in order. What needs a working tree is
/// left out for a bare repository.
pub open spec fn plan(dir: Seq<char>, kind: RepoKind, o: OptionsView) -> Seq<StepView> {
    phases::fetch_steps(dir, o.prune_tags, o.credential_helpers) + phases::refs_steps(
        dir,
        kind,
        o.reflog_expire,
    ) + only_if(!(kind is Bare) && o.prune_worktrees, phases::worktree_removal_steps()) + only_if(
        !(kind is Bare) && o.prune_branches,
        phases::branch_steps(),
    ) + (if o.aggressive {
        phases::aggressive_object_steps(dir)
    } else {
        phases::normal_object_steps(dir)
    }) + phases::index_steps(dir) + only_if(
        !(kind is Bare) && !o.skip_submodules,
        seq![StepView::Submodules],
    ) + only_if(!o.skip_lfs, seq![StepView::Lfs])
}

fn planned(dir: &str, kind: RepoKind, o: &CleanOptions) -> (r: Vec<Step>)
    ensures
        phases::step_views(r@) == plan(dir@, kind, o@),
{
    let mut r = phase_fetch(dir, o.prune_tags, o.credential_helpers);
    push_steps(&mut r, phase_refs(dir, kind, o.reflog_expire.as_str()));
    let ghost s2 = phases::step_views(r@);
    if !kind.is_bare() && o.prune_worktrees {
        push_steps(&mut r, phase_worktrees());
    }
    assert(phases::step_views(r@) =~= s2 + only_if(
        !(kind is Bare) && o.prune_worktrees,
        phases::worktree_removal_steps(),
    ));
    let ghost s3 = phases::step_views(r@);
    if !kind.is_bare() && o.prune_branches {
        push_steps(&mut r, phase_branches());
    }
    assert(phases::step_views(r@) =~= s3 + only_if(
        !(kind is Bare) && o.prune_branches,
        phases::branch_steps(),
    ));
    if o.aggressive {
        push_steps(&mut r, phase_objects_aggressive(dir));
    } else {
        push_steps(&mut r, phase_objects_normal(dir));
    }
    push_steps(&mut r, phase_indices(dir));
    let ghost s4 = phases::step_views(r@);
    if !kind.is_bare() && !o.skip_submodules {
        push_step(&mut r, Step::Submodules);
    }
    assert(phases::step_views(r@) =~= s4 + only_if(
        !(kind is Bare) && !o.skip_submodules,
        seq![StepView::Submodules],
    ));
    let ghost s5 = phases::step_views(r@);
    if !o.skip_lfs {
        push_step(&mut r, Step::Lfs);
    }
    assert(phases::step_views(r@) =~= s5 + only_if(!o.skip_lfs, seq![StepView::Lfs]));
    r
}

/// The message that stands for something that would be done.
pub open spec fn would(what: Seq<char>) -> StepView {
    StepView::Log("  (dry-run) "@ + what)
}

fn would_step(what: &str) -> (s: Step)
    ensures
        s@ == would(what@),
{
    let mut m = "  (dry-run) ".to_string();
    m.append(what);
    Step::Log(m)
}

/// What a dry run does in place of a step: it says what would be done. To name
/// the branches' mainline, and to know whether there are submodules or large
/// files, it has to look.
pub open spec fn preview(s: StepView) -> Seq<StepView> {
    match s {
        StepView::Git(c) => seq![would(call::shown(c))],
        StepView::Packs => seq![
            would(
                "git maintenance run --task=incremental-repack (if a pack is available)"@,
            ),
        ],
        StepView::Origin(Purpose::Worktrees) => seq![
            would("git worktree remove -- (worktrees merged into mainline or idle 3+ days)"@),
        ],
        StepView::Origin(_) => seq![StepView::Origin(Purpose::Preview)],
        StepView::Submodules => seq![StepView::Submodules],
        StepView::Lfs => seq![StepView::Lfs],
        _ => Seq::<StepView>::empty(),
    }
}

/// What a dry run does in place of steps.
pub open spec fn previews(s: Seq<StepView>) -> Seq<StepView>
    decreases s.len(),
{
    if s.len() == 0 {
        Seq::<StepView>::empty()
    } else {
        previews(s.drop_last()) + preview(s.last())
    }
}

fn preview_step(s: &Step) -> (r: Vec<Step>)
    ensures
        phases::step_views(r@) == preview(s@),
{
    let mut r: Vec<Step> = Vec::new();
    match s {
        Step::Git(c) => {
            let shown = c.shown();
            push_step(&mut r, would_step(shown.as_str()));
        },
        Step::Packs => {
            push_step(
                &mut r,
                would_step("git maintenance run --task=incremental-repack (if a pack is available)"),
            );
        },
        Step::Origin(Purpose::Worktrees) => {
            push_step(
                &mut r,
                would_step("git worktree remove -- (worktrees merged into mainline or idle 3+ days)"),
            );
        },
        Step::Origin(_) => {
            push_step(&mut r, Step::Origin(Purpose::Preview));
        },
        Step::Submodules => {
            push_step(&mut r, Step::Submodules);
        },
        Step::Lfs => {
            push_step(&mut r, Step::Lfs);
        },
        _ => {},
    }
    assert(phases::step_views(r@) =~= preview(s@));
    r
}

fn preview_steps(s: &Vec<Step>) -> (r: Vec<Step>)
    ensures
        phases::step_views(r@) == previews(phases::step_views(s@)),
{
    let ghost all = phases::step_views(s@);
    let mut r: Vec<Step> = Vec::new();
    assert(all.take(0) =~= Seq::<StepView>::empty());
    assert(phases::step_views(r@) =~= previews(all.take(0)));
    for i in 0..s.len()
        invariant
            all == phases::step_views(s@),
            phases::step_views(r@) == previews(all.take(i as int)),
    {
        assert(all.take(i + 1).drop_last() =~= all.take(i as int));
        assert(all.take(i + 1).last() == s@[i as int]@);
        push_steps(&mut r, preview_step(&s[i]));
    }
    assert(all.take(s@.len() as int) =~= all);
    r
}

/// What is to be done at the beginning of a cleanup.
pub open spec fn agenda(
    dir: Seq<char>,
    kind: RepoKind,
    o: OptionsView,
    dry_run: bool,
    n: nat,
    total: nat,
) -> Seq<StepView> {
    seq![StepView::Log(cleaning(dir, kind, n, total))] + (if dry_run {
        previews(plan(dir, kind, o))
    } else {
        plan(dir, kind, o).push(StepView::Elapsed)
    })
}

/// Begins the cleanup of `repo`, the `n`th of `total`. A dry run says what
/// would be done instead of doing it.
pub fn clean_repo<'a>(
    repo: &'a RepoInfo,
    opts: &'a CleanOptions,
    dry_run: bool,
    n: usize,
    total: usize,
) -> (job: CleanJob<'a>)
    ensures
        job@ == started(repo.path@, repo.kind, opts@, dry_run, n as nat, total as nat),
        job@.dir == repo.path@,
        job@.kind == repo.kind,
        job@.dry_run == dry_run,
        job@.n == n,
        job@.total == total,
        job@.ok,
        job@.opts.reflog_expire == opts.reflog_expire@,
        job@.opts.aggressive == opts.aggressive,
        job@.opts.skip_submodules == opts.skip_submodules,
        job@.opts.skip_lfs == opts.skip_lfs,
        job@.opts.prune_tags == opts.prune_tags,
        job@.opts.prune_branches == opts.prune_branches,
        job@.opts.prune_worktrees == opts.prune_worktrees,
        job@.opts.protected_branches == text::texts(opts.protected_branches@),
        job@.opts.credential_helpers == opts.credential_helpers,
{
    let mut steps: Vec<Step> = Vec::new();
    push_step(
        &mut steps,
        Step::Log(cleaning_text(repo.path.as_str(), repo.kind, n, total)),
    );
    let ghost first = phases::step_views(steps@);
    assert(first =~= seq![
        StepView::Log(cleaning(repo.path@, repo.kind, n as nat, total as nat)),
    ]);
    let mut rest = planned(repo.path.as_str(), repo.kind, opts);
    if dry_run {
        push_steps(&mut steps, preview_steps(&rest));
    } else {
        push_step(&mut rest, Step::Elapsed);
        push_steps(&mut steps, rest);
    }
    CleanJob { repo, opts, dry_run, n, total, agenda: steps, ok: true }
}

/// A cleanup at its beginning.
pub open spec fn started(
    dir: Seq<char>,
    kind: RepoKind,
    o: OptionsView,
    dry_run: bool,
    n: nat,
    total: nat,
) -> JobView {
    JobView {
        dir,
        kind,
        opts: o,
        dry_run,
        n,
        total,
        agenda: agenda(dir, kind, o, dry_run, n, total),
        ok: true,
    }
}

// ── actions ──────────────────────────────────────────────────────────────────

/// The name of a branch that may be the mainline.
pub open spec fn trunk_name(t: Trunk) -> Seq<char> {
    match t {
        Trunk::Main => "main"@,
        Trunk::Master => "master"@,
    }
}

fn trunk_text(t: Trunk) -> (r: &'static str)
    ensures
        r@ == trunk_name(t),
{
    match t {
        Trunk::Main => "main",
        Trunk::Master => "master",
    }
}

/// What the surroundings are to do for a step.
pub open spec fn step_action(dir: Seq<char>, s: StepView) -> ActionView {
    match s {
        StepView::Log(m) => ActionView::Log(m),
        StepView::Git(c) => ActionView::Run(c),
        StepView::Origin(_) => ActionView::Run(branches::origin_head_call(dir)),
        StepView::Fallback(_, t) => ActionView::Run(
            branches::branch_exists_call(dir, trunk_name(t)),
        ),
        StepView::Merged(m) => ActionView::Run(branches::merged_call(dir, m)),
        StepView::Worktrees(_) => ActionView::Run(worktrees::list_call(dir)),
        StepView::WorktreeMerged { path, head, mainline } => ActionView::Run(
            worktrees::is_merged_call(dir, head, mainline),
        ),
        StepView::WorktreeIdle(p) => ActionView::Idle(p),
        StepView::Packs => ActionView::Run(phases::packs_call(dir)),
        StepView::Submodules => submodules_question(dir),
        StepView::Lfs => ActionView::Run(phases::lfs_call(dir)),
        StepView::Elapsed => ActionView::Elapsed,
    }
}

/// What the surroundings of a cleanup are to do next.
pub open spec fn next_action(job: JobView) -> ActionView {
    if job.agenda.len() == 0 {
        ActionView::Finish(job.ok)
    } else {
        step_action(job.dir, job.agenda[0])
    }
}

fn copy_call(c: &GitCall) -> (r: GitCall)
    ensures
        r@ == c@,
{
    GitCall { dir: c.dir.clone(), args: text::copy_texts(&c.args), profile: c.profile }
}

fn act(dir: &str, s: &Step) -> (a: Action)
    ensures
        a@ == step_action(dir@, s@),
{
    match s {
        Step::Log(m) => Action::Log(m.clone()),
        Step::Git(c) => Action::Run(copy_call(c)),
        Step::Origin(_) => Action::Run(origin_head(dir)),
        Step::Fallback(_, t) => Action::Run(local_branch_exists(dir, trunk_text(*t))),
        Step::Merged(m) => Action::Run(merged_branches(dir, m.as_str())),
        Step::Worktrees(_) => Action::Run(list_worktrees(dir)),
        Step::WorktreeMerged { path, head, mainline } => Action::Run(
            is_merged(dir, head.as_str(), mainline.as_str()),
        ),
        Step::WorktreeIdle(p) => Action::Idle(p.clone()),
        Step::Packs => Action::Run(count_packs(dir)),
        Step::Submodules => has_submodules(dir),
        Step::Lfs => Action::Run(has_lfs(dir)),
        Step::Elapsed => Action::Elapsed,
    }
}

// ── replies ──────────────────────────────────────────────────────────────────

/// What follows a command that may have failed: a message about it, if there
/// is something to say.
pub open spec fn complaint(dir: Seq<char>, command: Seq<char>, o: Output) -> Seq<StepView> {
    match call::failure(dir, command, o) {
        Some(m) => seq![StepView::Log(m)],
        None => Seq::<StepView>::empty(),
    }
}

fn complain(dir: &str, command: &str, o: &Output) -> (r: Vec<Step>)
    ensures
        phases::step_views(r@) == complaint(dir@, command@, *o),
{
    let mut r: Vec<Step> = Vec::new();
    match failure_message(dir, command, o) {
        Some(m) => {
            push_step(&mut r, Step::Log(m));
        },
        None => {},
    }
    assert(phases::step_views(r@) =~= complaint(dir@, command@, *o));
    r
}

/// What follows when it is settled what the mainline is, if there is one.
pub open spec fn with_mainline(dir: Seq<char>, p: Purpose, m: Option<Seq<char>>) -> Seq<StepView> {
    match p {
        Purpose::Preview => match m {
            Some(m) => seq![
                would(
                    "git branch --merged "@ + report::sanitized(m)
                        + " | git branch -d -- (merged branches)"@,
                ),
            ],
            None => seq![would("branch pruning skipped: no mainline branch found"@)],
        },
        Purpose::Branches => match m {
            Some(m) => seq![StepView::Merged(m)],
            None => seq![
                StepView::Log(
                    report::sanitized(dir)
                        + ": no mainline branch found; skipping branch pruning"@,
                ),
            ],
        },
        Purpose::Worktrees => seq![StepView::Worktrees(m)],
    }
}

fn go_on_with_mainline(dir: &str, p: Purpose, m: Option<String>) -> (r: Vec<Step>)
    ensures
        phases::step_views(r@) == with_mainline(dir@, p, text::opt_text(m)),
{
    let ghost mv = text::opt_text(m);
    let mut r: Vec<Step> = Vec::new();
    match p {
        Purpose::Preview => match m {
            Some(m) => {
                let mut w = "git branch --merged ".to_string();
                let b = sanitize_for_log(m.as_str());
                w.append(b.as_str());
                w.append(" | git branch -d -- (merged branches)");
                push_step(&mut r, would_step(w.as_str()));
            },
            None => {
                push_step(&mut r, would_step("branch pruning skipped: no mainline branch found"));
            },
        },
        Purpose::Branches => match m {
            Some(m) => {
                push_step(&mut r, Step::Merged(m));
            },
            None => {
                let mut w = sanitize_for_log(dir);
                w.append(": no mainline branch found; skipping branch pruning");
                push_step(&mut r, Step::Log(w));
            },
        },
        Purpose::Worktrees => {
            push_step(&mut r, Step::Worktrees(m));
        },
    }
    assert(phases::step_views(r@) =~= with_mainline(dir@, p, mv));
    r
}

/// What follows when the merged branches are known: those that may go are
/// deleted, all with one command.
pub open spec fn deletion(dir: Seq<char>, names: Seq<Seq<char>>) -> Seq<StepView> {
    only_if(names.len() > 0, seq![StepView::Git(branches::delete_call(dir, names))])
}

/// What is to be found out about a worktree that may go.
pub open spec fn worktree_step(w: WorktreeView, mainline: Option<Seq<char>>) -> StepView {
    match mainline {
        Some(m) => StepView::WorktreeMerged { path: w.path, head: w.head, mainline: m },
        None => StepView::WorktreeIdle(w.path),
    }
}

/// What follows when the worktrees are known.
pub open spec fn worktree_steps(ws: Seq<WorktreeView>, mainline: Option<Seq<char>>) -> Seq<
    StepView,
> {
    ws.map_values(|w: WorktreeView| worktree_step(w, mainline))
}

fn look_at_worktrees(ws: Vec<Worktree>, mainline: &Option<String>) -> (r: Vec<Step>)
    ensures
        phases::step_views(r@) == worktree_steps(
            worktrees::worktree_views(ws@),
            text::opt_text(*mainline),
        ),
{
    let ghost mv = text::opt_text(*mainline);
    let ghost views = worktrees::worktree_views(ws@);
    let mut r: Vec<Step> = Vec::new();
    for i in 0..ws.len()
        invariant
            views == worktrees::worktree_views(ws@),
            mv == text::opt_text(*mainline),
            r@.len() == i,
            forall|j: int| 0 <= j < i ==> (#[trigger] r@[j])@ == worktree_step(views[j], mv),
    {
        let w = &ws[i];
        assert(views[i as int] == w@);
        let s = match mainline {
            Some(m) => Step::WorktreeMerged {
                path: w.path.clone(),
                head: w.head.clone(),
                mainline: m.clone(),
            },
            None => Step::WorktreeIdle(w.path.clone()),
        };
        assert(s@ == worktree_step(views[i as int], mv));
        r.push(s);
    }
    assert(phases::step_views(r@) =~= worktree_steps(views, mv));
    r
}

/// The steps `s` as a cleanup takes them: a dry run only says what they are.
pub open spec fn as_run(dry_run: bool, s: Seq<StepView>) -> Seq<StepView> {
    if dry_run {
        previews(s)
    } else {
        s
    }
}

fn taken(dry_run: bool, s: Vec<Step>) -> (r: Vec<Step>)
    ensures
        phases::step_views(r@) == as_run(dry_run, phases::step_views(s@)),
{
    if dry_run {
        preview_steps(&s)
    } else {
        s
    }
}

/// What follows the question for the number of packs: a repository without a
/// pack has nothing to repack. A question that is not answered is no reason to
/// leave the work out.
pub open spec fn repacking(dir: Seq<char>, o: Output) -> Seq<StepView> {
    if phases::pack_count(o) == Some(0nat) {
        Seq::<StepView>::empty()
    } else {
        complaint(dir, call::shown(phases::packs_call(dir)), o).push(
            StepView::Git(phases::incremental_repack(dir)),
        )
    }
}

/// The command line with which the merged branches are asked for, as it is
/// logged.
pub open spec fn merged_shown(mainline: Seq<char>) -> Seq<char> {
    "git branch --merged "@ + report::sanitized(mainline)
}

/// What follows from a reply to a step, before the rest of the agenda.
pub open spec fn follow_up(job: JobView, s: StepView, r: Reply) -> Seq<StepView> {
    let dir = job.dir;
    let nothing = Seq::<StepView>::empty();
    match (s, r) {
        (StepView::Git(c), Reply::Ran(o)) => complaint(dir, call::shown(c), o),
        (StepView::Origin(p), Reply::Ran(o)) => match branches::origin_branch(o) {
            Some(b) => with_mainline(dir, p, Some(b)),
            None => seq![StepView::Fallback(p, Trunk::Main)],
        },
        (StepView::Fallback(p, t), Reply::Ran(o)) => if call::succeeded(o) {
            with_mainline(dir, p, Some(trunk_name(t)))
        } else if t is Main {
            seq![StepView::Fallback(p, Trunk::Master)]
        } else {
            with_mainline(dir, p, None)
        },
        (StepView::Merged(m), Reply::Ran(o)) => match call::printed(o) {
            Some(t) => deletion(
                dir,
                branches::doomed(t, m, job.opts.protected_branches),
            ),
            None => complaint(dir, merged_shown(m), o),
        },
        (StepView::Worktrees(m), Reply::Ran(o)) => match call::printed(o) {
            Some(t) => worktree_steps(
                worktrees::spares(
                    worktrees::listed(text::line_texts(t)),
                    dir,
                    job.opts.protected_branches,
                ),
                m,
            ),
            None => complaint(dir, call::shown(worktrees::list_call(dir)), o),
        },
        (StepView::WorktreeMerged { path, head, mainline }, Reply::Ran(o)) => if call::succeeded(
            o,
        ) {
            seq![StepView::Git(worktrees::remove_call(dir, path))]
        } else {
            seq![StepView::WorktreeIdle(path)]
        },
        (StepView::WorktreeIdle(path), Reply::Idle(secs)) => only_if(
            secs > IDLE_SECS,
            seq![StepView::Git(worktrees::remove_call(dir, path))],
        ),
        (StepView::Packs, Reply::Ran(o)) => repacking(dir, o),
        (StepView::Submodules, Reply::Exists(yes)) => only_if(
            yes,
            as_run(job.dry_run, phases::submodule_steps(dir)),
        ),
        (StepView::Lfs, Reply::Ran(o)) => only_if(
            call::succeeded(o),
            as_run(job.dry_run, phases::lfs_steps(dir, job.opts.credential_helpers)),
        ),
        (StepView::Elapsed, Reply::Elapsed(ms)) => seq![
            StepView::Log(done(dir, job.n, job.total, ms as nat, job.ok)),
        ],
        _ => nothing,
    }
}

/// Whether a reply to a step means that it went well. A question whose failure
/// is its answer cannot go wrong; a command, and a listing or a count on which
/// something depends, has to succeed.
pub open spec fn went_well(s: StepView, r: Reply) -> bool {
    match (s, r) {
        (StepView::Git(_), Reply::Ran(o)) => call::succeeded(o),
        (StepView::Merged(_), Reply::Ran(o)) => call::succeeded(o),
        (StepView::Worktrees(_), Reply::Ran(o)) => call::succeeded(o),
        (StepView::Packs, Reply::Ran(o)) => call::succeeded(o),
        _ => true,
    }
}

/// The cleanup after a reply to its next action.
pub open spec fn after_reply(job: JobView, r: Reply) -> JobView {
    JobView {
        agenda: follow_up(job, job.agenda[0], r) + job.agenda.drop_first(),
        ok: job.ok && went_well(job.agenda[0], r),
        ..job
    }
}

fn went_well_step(s: &Step, r: &Reply) -> (b: bool)
    ensures
        b == went_well(s@, *r),
{
    match r {
        Reply::Ran(o) => match s {
            Step::Git(_) => o.is_success(),
            Step::Merged(_) => o.is_success(),
            Step::Worktrees(_) => o.is_success(),
            Step::Packs => o.is_success(),
            _ => true,
        },
        _ => true,
    }
}

impl<'a> CleanJob<'a> {
    /// What the surroundings are to do next.
    pub fn action(&self) -> (a: Action)
        ensures
            a@ == next_action(self@),
    {
        if self.agenda.len() == 0 {
            Action::Finish(self.ok)
        } else {
            assert(self@.agenda[0] == self.agenda@[0]@);
            act(self.repo.path.as_str(), &self.agenda[0])
        }
    }

    /// Takes the reply to `action`.
    pub fn reply(&mut self, r: Reply)
        requires
            answers(next_action(old(self)@), r),
        ensures
            final(self)@ == after_reply(old(self)@, r),
    {
        let ghost job = self@;
        let s = self.agenda.remove(0);
        assert(job.agenda[0] == s@);
        assert(phases::step_views(self.agenda@) =~= job.agenda.drop_first());
        let well = went_well_step(&s, &r);
        let mut next = self.follow(s, r);
        let mut rest: Vec<Step> = Vec::new();
        std::mem::swap(&mut rest, &mut self.agenda);
        push_steps(&mut next, rest);
        self.agenda = next;
        self.ok = self.ok && well;
    }

    /// What follows from a reply to a step.
    fn follow(&self, s: Step, r: Reply) -> (next: Vec<Step>)
        ensures
            phases::step_views(next@) == follow_up(self@, s@, r),
    {
        let dir = self.repo.path.as_str();
        let mut next: Vec<Step> = Vec::new();
        assert(phases::step_views(next@) =~= Seq::<StepView>::empty());
        let ghost sv = s@;
        match r {
            Reply::Ran(o) => match s {
                Step::Git(c) => complain(dir, c.shown().as_str(), &o),
                Step::Origin(p) => match read_origin_head(&o) {
                    Some(b) => go_on_with_mainline(dir, p, Some(b)),
                    None => {
                        push_step(&mut next, Step::Fallback(p, Trunk::Main));
                        assert(phases::step_views(next@) =~= seq![
                            StepView::Fallback(p, Trunk::Main),
                        ]);
                        next
                    },
                },
                Step::Fallback(p, t) => if o.is_success() {
                    go_on_with_mainline(dir, p, Some(trunk_text(t).to_string()))
                } else if t == Trunk::Main {
                    push_step(&mut next, Step::Fallback(p, Trunk::Master));
                    assert(phases::step_views(next@) =~= seq![
                        StepView::Fallback(p, Trunk::Master),
                    ]);
                    next
                } else {
                    go_on_with_mainline(dir, p, None)
                },
                Step::Merged(m) => match o.text() {
                    Some(t) => {
                        let names = doomed_branches(
                            t.as_str(),
                            m.as_str(),
                            &self.opts.protected_branches,
                        );
                        let ghost nv = text::texts(names@);
                        assert(nv.len() == names@.len());
                        if names.len() > 0 {
                            push_step(&mut next, Step::Git(delete_branches(dir, names)));
                        }
                        assert(phases::step_views(next@) =~= deletion(dir@, nv));
                        next
                    },
                    None => {
                        let mut shown = "git branch --merged ".to_string();
                        let b = sanitize_for_log(m.as_str());
                        shown.append(b.as_str());
                        complain(dir, shown.as_str(), &o)
                    },
                },
                Step::Worktrees(m) => match o.text() {
                    Some(t) => {
                        let ws = spare_worktrees(t.as_str(), dir, &self.opts.protected_branches);
                        look_at_worktrees(ws, &m)
                    },
                    None => complain(dir, list_worktrees(dir).shown().as_str(), &o),
                },
                Step::WorktreeMerged { path, head, mainline } => {
                    if o.is_success() {
                        push_step(&mut next, Step::Git(remove_worktree(dir, path.as_str())));
                    } else {
                        push_step(&mut next, Step::WorktreeIdle(path));
                    }
                    assert(phases::step_views(next@) =~= follow_up(self@, sv, r));
                    next
                },
                Step::Packs => match read_packs(&o) {
                    Some(0) => next,
                    _ => {
                        let mut next = complain(dir, count_packs(dir).shown().as_str(), &o);
                        push_step(&mut next, Step::Git(repack_incrementally(dir)));
                        next
                    },
                },
                Step::Lfs => if o.is_success() {
                    taken(self.dry_run, phase_lfs(dir, self.opts.credential_helpers))
                } else {
                    next
                },
                _ => next,
            },
            Reply::Exists(yes) => match s {
                Step::Submodules => if yes {
                    taken(self.dry_run, phase_submodules(dir))
                } else {
                    next
                },
                _ => next,
            },
            Reply::Idle(secs) => match s {
                Step::WorktreeIdle(path) => {
                    if secs > IDLE_SECS {
                        push_step(&mut next, Step::Git(remove_worktree(dir, path.as_str())));
                    }
                    assert(phases::step_views(next@) =~= follow_up(self@, sv, r));
                    next
                },
                _ => next,
            },
            Reply::Elapsed(ms) => match s {
                Step::Elapsed => {
                    push_step(
                        &mut next,
                        Step::Log(done_text(dir, self.n, self.total, ms, self.ok)),
                    );
                    assert(phases::step_views(next@) =~= follow_up(self@, sv, r));
                    next
                },
                _ => next,
            },
            Reply::Logged => next,
        }
    }
}

} // verus!
