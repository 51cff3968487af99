//! The phases of a cleanup, as lists of steps.
use vstd::prelude::*;
use vstd::string::*;

use crate::call;
use crate::call::{CallView, GitCall, Output, Profile};
use crate::repo::RepoKind;
use crate::text;
use crate::text::{lines, parse_unsigned, strip_prefix, trim};
use crate::text_laws;

verus! {

/// What the mainline branch is wanted for.
#[derive(Debug, Clone, Copy, PartialEq, Eq, Structural)]
pub enum Purpose {
    /// To say which branches would be deleted.
    Preview,
    /// To delete the branches that are merged into it.
    Branches,
    /// To remove the worktrees whose commit is merged into it.
    Worktrees,
}

/// The branches that are taken for the mainline when `origin` names none.
#[derive(Debug, Clone, Copy, PartialEq, Eq, Structural)]
pub enum Trunk {
    Main,
    Master,
}

/// One step of a cleanup.
#[derive(Debug)]
pub enum Step {
    /// Write a message to the log.
    Log(String),
    /// Run a command, which is to succeed.
    Git(GitCall),
    /// Ask `origin` for the mainline.
    Origin(Purpose),
    /// Ask whether a branch exists that may be the mainline.
    Fallback(Purpose, Trunk),
    /// List the branches merged into the mainline and delete them.
    Merged(String),
    /// List the worktrees and remove those that are merged into the mainline,
    /// if there is one, or idle.
    Worktrees(Option<String>),
    /// Remove a worktree if its commit is merged into the mainline, or if it is
    /// idle.
    WorktreeMerged { path: String, head: String, mainline: String },
    /// Remove a worktree if it is idle.
    WorktreeIdle(String),
    /// Repack incrementally unless there is no pack.
    Packs,
    /// Clean the submodules if there are any.
    Submodules,
    /// Prune large files if they are in use.
    Lfs,
    /// Log how long the cleanup took and how it ended.
    Elapsed,
}

/// The texts of a `Step`.
pub enum StepView {
    Log(Seq<char>),
    Git(CallView),
    Origin(Purpose),
    Fallback(Purpose, Trunk),
    Merged(Seq<char>),
    Worktrees(Option<Seq<char>>),
    WorktreeMerged { path: Seq<char>, head: Seq<char>, mainline: Seq<char> },
    WorktreeIdle(Seq<char>),
    Packs,
    Submodules,
    Lfs,
    Elapsed,
}

impl View for Step {
    type V = StepView;

    open spec fn view(&self) -> StepView {
        match self {
            Step::Log(m) => StepView::Log(m@),
            Step::Git(c) => StepView::Git(c@),
            Step::Origin(p) => StepView::Origin(*p),
            Step::Fallback(p, t) => StepView::Fallback(*p, *t),
            Step::Merged(m) => StepView::Merged(m@),
            Step::Worktrees(m) => StepView::Worktrees(text::opt_text(*m)),
            Step::WorktreeMerged { path, head, mainline } => StepView::WorktreeMerged {
                path: path@,
                head: head@,
                mainline: mainline@,
            },
            Step::WorktreeIdle(p) => StepView::WorktreeIdle(p@),
            Step::Packs => StepView::Packs,
            Step::Submodules => StepView::Submodules,
            Step::Lfs => StepView::Lfs,
            Step::Elapsed => StepView::Elapsed,
        }
    }
}

/// The views of a list of steps.
pub open spec fn step_views(v: Seq<Step>) -> Seq<StepView> {
    v.map_values(|s: Step| s@)
}

/// A step that runs `git` with `args` in `dir`.
pub open spec fn git_step(dir: Seq<char>, args: Seq<Seq<char>>, profile: Profile) -> StepView {
    StepView::Git(CallView { dir, args, profile })
}

/// Adds a step to a list.
pub fn push_step(v: &mut Vec<Step>, s: Step)
    ensures
        step_views(final(v)@) == step_views(old(v)@).push(s@),
{
    let ghost v0 = step_views(v@);
    let ghost s0 = s@;
    v.push(s);
    assert(step_views(v@) =~= v0.push(s0));
}

/// Adds a list of steps to another.
pub fn push_steps(v: &mut Vec<Step>, more: Vec<Step>)
    ensures
        step_views(final(v)@) == step_views(old(v)@) + step_views(more@),
{
    let ghost v0 = step_views(v@);
    let ghost m0 = step_views(more@);
    let mut more = more;
    v.append(&mut more);
    assert(step_views(v@) =~= v0 + m0);
}

fn push_git(v: &mut Vec<Step>, dir: &str, args: &[&str], profile: Profile)
    ensures
        step_views(final(v)@) == step_views(old(v)@).push(
            git_step(dir@, text::slices(args@), profile),
        ),
{
    push_step(v, Step::Git(GitCall::new(dir, args, profile)));
}

// ── fetch ────────────────────────────────────────────────────────────────────

/// The profile of a command that talks to a remote.
pub open spec fn remote_profile(helpers: bool) -> Profile {
    if helpers {
        Profile::Helpers
    } else {
        Profile::Hardened
    }
}

/// The steps of the fetch phase.
pub open spec fn fetch_steps(dir: Seq<char>, prune_tags: bool, helpers: bool) -> Seq<StepView> {
    let args = if prune_tags {
        seq!["fetch"@, "--all"@, "--prune"@, "--prune-tags"@]
    } else {
        seq!["fetch"@, "--all"@, "--prune"@]
    };
    seq![git_step(dir, args, remote_profile(helpers))]
}

/// Updates the remote-tracking branches. Pruning tags would also delete tags
/// that were never pushed, so it is done only if asked for. The configured
/// credential helpers are used if `helpers` is set.
pub fn phase_fetch(dir: &str, prune_tags: bool, helpers: bool) -> (r: Vec<Step>)
    ensures
        step_views(r@) == fetch_steps(dir@, prune_tags, helpers),
{
    let profile = if helpers {
        Profile::Helpers
    } else {
        Profile::Hardened
    };
    let mut r: Vec<Step> = Vec::new();
    if prune_tags {
        let args = ["fetch", "--all", "--prune", "--prune-tags"];
        assert(text::slices(args@) =~= seq!["fetch"@, "--all"@, "--prune"@, "--prune-tags"@]);
        push_git(&mut r, dir, &args, profile);
    } else {
        let args = ["fetch", "--all", "--prune"];
        assert(text::slices(args@) =~= seq!["fetch"@, "--all"@, "--prune"@]);
        push_git(&mut r, dir, &args, profile);
    }
    assert(step_views(r@) =~= fetch_steps(dir@, prune_tags, helpers));
    r
}

// ── refs ─────────────────────────────────────────────────────────────────────

/// The steps of the refs phase.
pub open spec fn refs_steps(dir: Seq<char>, kind: RepoKind, reflog_expire: Seq<char>) -> Seq<
    StepView,
> {
    let worktrees = if kind is Bare {
        Seq::<StepView>::empty()
    } else {
        seq![git_step(dir, seq!["worktree"@, "prune"@], Profile::Hardened)]
    };
    seq![git_step(dir, seq!["pack-refs"@, "--all"@], Profile::Hardened)] + worktrees + seq![
        git_step(
            dir,
            seq!["reflog"@, "expire"@, "--expire="@ + reflog_expire, "--all"@],
            Profile::Hardened,
        ),
        git_step(dir, seq!["rerere"@, "gc"@], Profile::Hardened),
        git_step(dir, seq!["notes"@, "prune"@], Profile::Hardened),
    ]
}

/// Packs the refs, drops the records of worktrees that are gone, and expires
/// what is no longer needed. A bare repository has no worktrees to see to.
pub fn phase_refs(dir: &str, kind: RepoKind, reflog_expire: &str) -> (r: Vec<Step>)
    ensures
        step_views(r@) == refs_steps(dir@, kind, reflog_expire@),
{
    let mut r: Vec<Step> = Vec::new();
    let a = ["pack-refs", "--all"];
    assert(text::slices(a@) =~= seq!["pack-refs"@, "--all"@]);
    push_git(&mut r, dir, &a, Profile::Hardened);
    if !kind.is_bare() {
        let a = ["worktree", "prune"];
        assert(text::slices(a@) =~= seq!["worktree"@, "prune"@]);
        push_git(&mut r, dir, &a, Profile::Hardened);
    }
    let mut expire = "--expire=".to_string();
    expire.append(reflog_expire);
    let a = ["reflog", "expire", expire.as_str(), "--all"];
    assert(text::slices(a@) =~= seq!["reflog"@, "expire"@, "--expire="@ + reflog_expire@, "--all"@]);
    push_git(&mut r, dir, &a, Profile::Hardened);
    let a = ["rerere", "gc"];
    assert(text::slices(a@) =~= seq!["rerere"@, "gc"@]);
    push_git(&mut r, dir, &a, Profile::Hardened);
    let a = ["notes", "prune"];
    assert(text::slices(a@) =~= seq!["notes"@, "prune"@]);
    push_git(&mut r, dir, &a, Profile::Hardened);
    assert(step_views(r@) =~= refs_steps(dir@, kind, reflog_expire@));
    r
}

// ── worktrees and branches ───────────────────────────────────────────────────

/// The steps of the worktrees phase. What it removes depends on the mainline.
pub open spec fn worktree_removal_steps() -> Seq<StepView> {
    seq![StepView::Origin(Purpose::Worktrees)]
}

/// Removes the worktrees that are merged into the mainline or idle.
pub fn phase_worktrees() -> (r: Vec<Step>)
    ensures
        step_views(r@) == worktree_removal_steps(),
{
    let mut r: Vec<Step> = Vec::new();
    push_step(&mut r, Step::Origin(Purpose::Worktrees));
    assert(step_views(r@) =~= worktree_removal_steps());
    r
}

/// The steps of the branches phase. What it deletes depends on the mainline.
pub open spec fn branch_steps() -> Seq<StepView> {
    seq![StepView::Origin(Purpose::Branches)]
}

/// Deletes the branches that are merged into the mainline.
pub fn phase_branches() -> (r: Vec<Step>)
    ensures
        step_views(r@) == branch_steps(),
{
    let mut r: Vec<Step> = Vec::new();
    push_step(&mut r, Step::Origin(Purpose::Branches));
    assert(step_views(r@) =~= branch_steps());
    r
}

// ── objects ──────────────────────────────────────────────────────────────────

/// The command that packs loose objects.
pub open spec fn loose_objects(dir: Seq<char>) -> StepView {
    git_step(dir, seq!["maintenance"@, "run"@, "--task=loose-objects"@], Profile::Hardened)
}

/// The steps of the objects phase, normally.
pub open spec fn normal_object_steps(dir: Seq<char>) -> Seq<StepView> {
    seq![
        loose_objects(dir),
        StepView::Packs,
        git_step(dir, seq!["gc"@, "--auto"@], Profile::Hardened),
    ]
}

/// The steps of the objects phase when asked to be thorough.
pub open spec fn aggressive_object_steps(dir: Seq<char>) -> Seq<StepView> {
    seq![
        loose_objects(dir),
        git_step(dir, seq!["repack"@, "-a"@, "-d"@, "-f"@], Profile::Hardened),
        git_step(dir, seq!["gc"@, "--aggressive"@, "--prune=all"@], Profile::Hardened),
    ]
}

/// Packs loose objects and repacks incrementally, which a garbage collection
/// does only above its own thresholds, and then collects garbage.
pub fn phase_objects_normal(dir: &str) -> (r: Vec<Step>)
    ensures
        step_views(r@) == normal_object_steps(dir@),
{
    let mut r: Vec<Step> = Vec::new();
    let a = ["maintenance", "run", "--task=loose-objects"];
    assert(text::slices(a@) =~= seq!["maintenance"@, "run"@, "--task=loose-objects"@]);
    push_git(&mut r, dir, &a, Profile::Hardened);
    push_step(&mut r, Step::Packs);
    let a = ["gc", "--auto"];
    assert(text::slices(a@) =~= seq!["gc"@, "--auto"@]);
    push_git(&mut r, dir, &a, Profile::Hardened);
    assert(step_views(r@) =~= normal_object_steps(dir@));
    r
}

/// Packs loose objects, packs everything anew, and collects garbage
/// thoroughly.
pub fn phase_objects_aggressive(dir: &str) -> (r: Vec<Step>)
    ensures
        step_views(r@) == aggressive_object_steps(dir@),
{
    let mut r: Vec<Step> = Vec::new();
    let a = ["maintenance", "run", "--task=loose-objects"];
    assert(text::slices(a@) =~= seq!["maintenance"@, "run"@, "--task=loose-objects"@]);
    push_git(&mut r, dir, &a, Profile::Hardened);
    let a = ["repack", "-a", "-d", "-f"];
    assert(text::slices(a@) =~= seq!["repack"@, "-a"@, "-d"@, "-f"@]);
    push_git(&mut r, dir, &a, Profile::Hardened);
    let a = ["gc", "--aggressive", "--prune=all"];
    assert(text::slices(a@) =~= seq!["gc"@, "--aggressive"@, "--prune=all"@]);
    push_git(&mut r, dir, &a, Profile::Hardened);
    assert(step_views(r@) =~= aggressive_object_steps(dir@));
    r
}

/// The question for the number of packs.
pub open spec fn packs_call(dir: Seq<char>) -> CallView {
    CallView { dir, args: seq!["count-objects"@, "-v"@], profile: Profile::Probe }
}

/// The question for the number of packs.
pub fn count_packs(dir: &str) -> (c: GitCall)
    ensures
        c@ == packs_call(dir@),
{
    let a = ["count-objects", "-v"];
    assert(text::slices(a@) =~= packs_call(dir@).args);
    GitCall::new(dir, &a, Profile::Probe)
}

/// The number of packs that a line of the answer to `count_packs` gives, if it
/// is the line that gives it.
pub open spec fn packs_on(line: Seq<char>) -> Option<nat> {
    match text::after_prefix(line, "packs: "@) {
        Some(t) => text::unsigned(text::trimmed(t), u64::MAX as nat),
        None => None,
    }
}

/// The number of packs that the first of the lines gives that gives one.
pub open spec fn packs_in(ls: Seq<Seq<char>>) -> Option<nat>
    decreases ls.len(),
{
    if ls.len() == 0 {
        None
    } else {
        match packs_on(ls[0]) {
            Some(n) => Some(n),
            None => packs_in(ls.skip(1)),
        }
    }
}

/// The number of packs that the text of an answer to `count_packs` gives.
pub open spec fn packs_reported(t: Seq<char>) -> Option<nat> {
    packs_in(text::line_texts(t))
}

/// The number of packs that the text of an answer to `count_packs` gives;
/// nothing if it gives none.
pub fn read_pack_count(t: &str) -> (r: Option<u64>)
    ensures
        match r {
            Some(n) => packs_reported(t@) == Some(n as nat),
            None => packs_reported(t@) is None,
        },
{
    let all = lines(t);
    let ghost ls = text::line_texts(t@);
    assert(ls.skip(0) =~= ls);
    for i in 0..all.len()
        invariant
            text::texts(all@) == ls,
            ls == text::line_texts(t@),
            packs_in(ls) == packs_in(ls.skip(i as int)),
    {
        assert(ls.len() == all@.len());
        let ghost rest = ls.skip(i as int);
        assert(rest[0] == all@[i as int]@);
        assert(rest.skip(1) =~= ls.skip(i + 1));
        match strip_prefix(all[i].as_str(), "packs: ") {
            Some(n) => match parse_unsigned(trim(n.as_str()), u64::MAX) {
                Some(n) => {
                    return Some(n);
                },
                None => {},
            },
            None => {},
        }
    }
    assert(ls.len() == all@.len());
    None
}

/// The number of packs that an answer to `count_packs` gives. A question that
/// failed is not answered.
pub open spec fn pack_count(o: Output) -> Option<nat> {
    match call::printed(o) {
        Some(t) => packs_reported(t),
        None => None,
    }
}

/// The number of packs that an answer to `count_packs` gives; nothing if the
/// question is not answered.
pub fn read_packs(o: &Output) -> (r: Option<u64>)
    ensures
        match r {
            Some(n) => pack_count(*o) == Some(n as nat),
            None => pack_count(*o) is None,
        },
{
    match o.text() {
        Some(t) => read_pack_count(t.as_str()),
        None => None,
    }
}

/// The command that repacks incrementally.
pub open spec fn incremental_repack(dir: Seq<char>) -> CallView {
    CallView {
        dir,
        args: seq!["maintenance"@, "run"@, "--task=incremental-repack"@],
        profile: Profile::Hardened,
    }
}

/// The command that repacks incrementally.
pub fn repack_incrementally(dir: &str) -> (c: GitCall)
    ensures
        c@ == incremental_repack(dir@),
{
    let a = ["maintenance", "run", "--task=incremental-repack"];
    assert(text::slices(a@) =~= incremental_repack(dir@).args);
    GitCall::new(dir, &a, Profile::Hardened)
}

// ── indices, submodules, large files ─────────────────────────────────────────

/// The steps of the indices phase.
pub open spec fn index_steps(dir: Seq<char>) -> Seq<StepView> {
    seq![
        git_step(dir, seq!["maintenance"@, "run"@, "--task=commit-graph"@], Profile::Hardened),
    ]
}

/// Writes the commit graph.
pub fn phase_indices(dir: &str) -> (r: Vec<Step>)
    ensures
        step_views(r@) == index_steps(dir@),
{
    let mut r: Vec<Step> = Vec::new();
    let a = ["maintenance", "run", "--task=commit-graph"];
    assert(text::slices(a@) =~= seq!["maintenance"@, "run"@, "--task=commit-graph"@]);
    push_git(&mut r, dir, &a, Profile::Hardened);
    assert(step_views(r@) =~= index_steps(dir@));
    r
}

/// The steps of the submodules phase.
pub open spec fn submodule_steps(dir: Seq<char>) -> Seq<StepView> {
    seq![
        git_step(dir, seq!["submodule"@, "sync"@, "--recursive"@], Profile::Hardened),
        git_step(
            dir,
            seq!["submodule"@, "foreach"@, "--recursive"@, "git"@, "gc"@, "--auto"@],
            Profile::Hardened,
        ),
    ]
}

/// Updates the submodules' remotes and collects garbage in them.
pub fn phase_submodules(dir: &str) -> (r: Vec<Step>)
    ensures
        step_views(r@) == submodule_steps(dir@),
{
    let mut r: Vec<Step> = Vec::new();
    let a = ["submodule", "sync", "--recursive"];
    assert(text::slices(a@) =~= seq!["submodule"@, "sync"@, "--recursive"@]);
    push_git(&mut r, dir, &a, Profile::Hardened);
    let a = ["submodule", "foreach", "--recursive", "git", "gc", "--auto"];
    assert(text::slices(a@) =~= seq![
        "submodule"@,
        "foreach"@,
        "--recursive"@,
        "git"@,
        "gc"@,
        "--auto"@,
    ]);
    push_git(&mut r, dir, &a, Profile::Hardened);
    assert(step_views(r@) =~= submodule_steps(dir@));
    r
}

/// The question whether large-file support is configured.
pub open spec fn lfs_call(dir: Seq<char>) -> CallView {
    CallView {
        dir,
        args: seq!["config"@, "--local"@, "--get-regexp"@, "filter\\.lfs\\."@],
        profile: Profile::Probe,
    }
}

/// The question whether large-file support is configured. It succeeds if so.
pub fn has_lfs(dir: &str) -> (c: GitCall)
    ensures
        c@ == lfs_call(dir@),
{
    let a = ["config", "--local", "--get-regexp", "filter\\.lfs\\."];
    assert(text::slices(a@) =~= lfs_call(dir@).args);
    GitCall::new(dir, &a, Profile::Probe)
}

/// The steps of the large-files phase.
pub open spec fn lfs_steps(dir: Seq<char>, helpers: bool) -> Seq<StepView> {
    seq![git_step(dir, seq!["lfs"@, "prune"@], remote_profile(helpers))]
}

/// Prunes large files, through `git` so that the extension is found as the
/// user's shell would find it.
pub fn phase_lfs(dir: &str, helpers: bool) -> (r: Vec<Step>)
    ensures
        step_views(r@) == lfs_steps(dir@, helpers),
{
    let profile = if helpers {
        Profile::Helpers
    } else {
        Profile::Hardened
    };
    let mut r: Vec<Step> = Vec::new();
    let a = ["lfs", "prune"];
    assert(text::slices(a@) =~= seq!["lfs"@, "prune"@]);
    push_git(&mut r, dir, &a, profile);
    assert(step_views(r@) =~= lfs_steps(dir@, helpers));
    r
}

// ── laws ─────────────────────────────────────────────────────────────────────

/// Whether a line does not give a number of packs: it does not begin with
/// "packs: ", or what follows is no number.
pub open spec fn no_pack_line(line: Seq<char>) -> bool {
    forall|r: Seq<char>|
        line == #[trigger] ("packs: "@ + r) ==> text::unsigned(
            text::trimmed(r),
            u64::MAX as nat,
        ) is None
}

/// The number of packs stands behind "packs: ", on the first line that gives
/// one, whatever stands on the other lines.
pub proof fn packs_are_read_from_their_line(
    before: Seq<Seq<char>>,
    r: Seq<char>,
    n: nat,
    after: Seq<Seq<char>>,
    t: Seq<char>,
)
    requires
        forall|i: int| 0 <= i < before.len() ==> no_pack_line(#[trigger] before[i]),
        text::unsigned(text::trimmed(r), u64::MAX as nat) == Some(n),
        text::line_texts(t) == before + seq!["packs: "@ + r] + after,
    ensures
        packs_reported(t) == Some(n),
{
    let line = "packs: "@ + r;
    text_laws::prefixes_are_taken_off(line, "packs: "@, r);
    lemma_packs_behind(before, seq![line] + after);
    assert((seq![line] + after)[0] == line);
    assert(before + seq![line] + after =~= before + (seq![line] + after));
}

/// Every number of packs is read as it is written, with any white space around
/// it.
pub proof fn every_number_of_packs_is_read(
    pre: Seq<char>,
    n: nat,
    post: Seq<char>,
    after: Seq<Seq<char>>,
    t: Seq<char>,
)
    requires
        text_laws::blank(pre),
        text_laws::blank(post),
        n <= u64::MAX,
        text::line_texts(t) == seq!["packs: "@ + (pre + text::decimal(n) + post)] + after,
    ensures
        packs_reported(t) == Some(n),
{
    let d = text::decimal(n);
    let none = Seq::<Seq<char>>::empty();
    text::lemma_decimal_digits(n);
    text::decimal_reads_back(n, u64::MAX as nat);
    assert(text::is_digit(d[0]) && text::is_digit(d[d.len() - 1]));
    text_laws::trimming_takes_the_ends_off(pre, d, post);
    let line = "packs: "@ + (pre + d + post);
    assert(none + seq![line] + after =~= seq![line] + after);
    packs_are_read_from_their_line(none, pre + d + post, n, after, t);
}

proof fn lemma_packs_behind(before: Seq<Seq<char>>, rest: Seq<Seq<char>>)
    requires
        forall|i: int| 0 <= i < before.len() ==> no_pack_line(#[trigger] before[i]),
    ensures
        packs_in(before + rest) == packs_in(rest),
    decreases before.len(),
{
    if before.len() == 0 {
        assert(before + rest =~= rest);
    } else {
        let b = before.skip(1);
        assert forall|i: int| 0 <= i < b.len() implies no_pack_line(#[trigger] b[i]) by {
            assert(b[i] == before[i + 1]);
        }
        lemma_packs_behind(b, rest);
        assert(no_pack_line(before[0]));
        if let Some(r) = text::after_prefix(before[0], "packs: "@) {
            text_laws::prefixes_are_taken_off(before[0], "packs: "@, r);
            assert(before[0] == "packs: "@ + r);
        }
        assert((before + rest)[0] == before[0]);
        assert((before + rest).skip(1) =~= b + rest);
    }
}

/// Without such a line no number of packs is reported.
pub proof fn packs_are_read_from_no_other_line(t: Seq<char>)
    requires
        forall|i: int|
            0 <= i < text::line_texts(t).len() ==> no_pack_line(#[trigger] text::line_texts(t)[i]),
    ensures
        packs_reported(t) is None,
{
    let none = Seq::<Seq<char>>::empty();
    lemma_packs_behind(text::line_texts(t), none);
    assert(text::line_texts(t) + none =~= text::line_texts(t));
}

/// An answer is read just if the question succeeded.
pub proof fn failed_counts_say_nothing(o: Output)
    ensures
        match o {
            Output::Exited { success: true, stdout, .. } => pack_count(o) == packs_reported(
                text::decoded(stdout@),
            ),
            _ => pack_count(o) is None,
        },
{
}

} // verus!
