//! One cycle over all repositories: which is cleaned next, what came of each,
//! and what is said about it.
use vstd::prelude::*;
use vstd::string::*;

use crate::config::Config;
use crate::repo;
use crate::repo::{RepoInfo, RepoView};
use crate::text;
use crate::text::number;

verus! {

/// What happened so far in a cycle.
pub struct CycleView {
    /// The number of repositories, and of the bare ones among them.
    pub total: nat,
    pub bare: nat,
    /// The number of workers.
    pub workers: nat,
    /// How many repositories were handed out to a worker.
    pub taken: nat,
    /// How many of those cleanups are finished, and how many of them failed.
    pub finished: nat,
    pub failed: nat,
    /// Whether the repositories could not all be looked for.
    pub discovery_failed: bool,
}

/// What came of a cycle.
#[derive(Debug, Clone, Copy, PartialEq, Eq, Structural)]
pub struct CycleStats {
    /// The number of repositories whose cleanup failed.
    pub failed: usize,
    /// Whether the repositories could not all be looked for.
    pub discovery_failed: bool,
}

/// A cycle in progress.
#[derive(Debug)]
pub struct Cycle {
    total: usize,
    bare: usize,
    workers: usize,
    taken: usize,
    finished: usize,
    failed: usize,
    discovery_failed: bool,
}

impl View for Cycle {
    type V = CycleView;

    closed spec fn view(&self) -> CycleView {
        CycleView {
            total: self.total as nat,
            bare: self.bare as nat,
            workers: self.workers as nat,
            taken: self.taken as nat,
            finished: self.finished as nat,
            failed: self.failed as nat,
            discovery_failed: self.discovery_failed,
        }
    }
}

/// Whether the numbers of a cycle agree with each other.
pub open spec fn consistent(c: CycleView) -> bool {
    &&& c.failed <= c.finished <= c.taken <= c.total
    &&& c.bare <= c.total
    &&& c.workers <= c.total
    &&& c.total > 0 ==> c.workers > 0
}

// ── beginning ────────────────────────────────────────────────────────────────

/// The number of bare repositories.
pub open spec fn bare_count(repos: Seq<RepoView>) -> nat {
    repos.filter(|r: RepoView| r.kind is Bare).len()
}

fn count_bare(repos: &Vec<RepoInfo>) -> (n: usize)
    ensures
        n == bare_count(repo::repo_views(repos@)),
        n <= repos@.len(),
{
    let ghost all = repo::repo_views(repos@);
    let ghost is_bare = |r: RepoView| r.kind is Bare;
    let mut n: usize = 0;
    assert(all.take(0) =~= Seq::<RepoView>::empty());
    assert(all.take(0).filter(is_bare) =~= Seq::<RepoView>::empty());
    for i in 0..repos.len()
        invariant
            all == repo::repo_views(repos@),
            is_bare == (|r: RepoView| r.kind is Bare),
            n == all.take(i as int).filter(is_bare).len(),
            n <= i,
    {
        assert(all[i as int] == repos@[i as int]@);
        assert(all.take(i + 1) =~= all.take(i as int).push(all[i as int]));
        proof {
            all.take(i as int).lemma_filter_push(all[i as int], is_bare);
        }
        if repos[i].kind.is_bare() {
            n = n + 1;
        }
    }
    assert(all.take(repos@.len() as int) =~= all);
    n
}

/// A cycle over `repos` at its beginning. There are no more workers than
/// repositories.
pub open spec fn begun(repos: Seq<RepoView>, workers: nat, discovery_failed: bool) -> CycleView {
    CycleView {
        total: repos.len(),
        bare: bare_count(repos),
        workers: if workers <= repos.len() {
            workers
        } else {
            repos.len()
        },
        taken: 0,
        finished: 0,
        failed: 0,
        discovery_failed,
    }
}

/// Begins a cycle over `repos`, with as many workers as the settings ask for
/// and there is work for.
pub fn run_cycle(cfg: &Config, repos: &Vec<RepoInfo>, discovery_failed: bool) -> (c: Cycle)
    ensures
        c@ == begun(repo::repo_views(repos@), cfg@.num_workers, discovery_failed),
        c@.total == repos@.len(),
        c@.workers == (if cfg.num_workers.spec_get() <= repos@.len() {
            cfg.num_workers.spec_get() as nat
        } else {
            repos@.len()
        }),
        c@.taken == 0,
        c@.finished == 0,
        c@.failed == 0,
        c@.discovery_failed == discovery_failed,
{
    let total: usize = repos.len();
    let bare: usize = count_bare(repos);
    let wanted: usize = cfg.num_workers.get();
    let workers: usize = if wanted <= total {
        wanted
    } else {
        total
    };
    Cycle { total, bare, workers, taken: 0, finished: 0, failed: 0, discovery_failed }
}

// ── work ─────────────────────────────────────────────────────────────────────

/// The cycle after a worker asked for a repository.
pub open spec fn after_take(c: CycleView) -> CycleView {
    if c.taken < c.total {
        CycleView { taken: c.taken + 1, ..c }
    } else {
        c
    }
}

/// The repository that a worker gets, if one is left.
pub open spec fn handed(c: CycleView) -> Option<nat> {
    if c.taken < c.total {
        Some(c.taken)
    } else {
        None
    }
}

/// The cycle after a cleanup ended.
pub open spec fn after_finish(c: CycleView, ok: bool) -> CycleView {
    CycleView {
        finished: c.finished + 1,
        failed: if ok {
            c.failed
        } else {
            c.failed + 1
        },
        ..c
    }
}

impl Cycle {
    #[verifier::type_invariant]
    spec fn numbers_agree(self) -> bool {
        consistent(self@)
    }

    /// The number of workers to clean with.
    pub fn workers(&self) -> (n: usize)
        ensures
            n == self@.workers,
    {
        self.workers
    }

    /// Hands out the next repository, by its place in the list; nothing if
    /// none is left.
    pub fn take(&mut self) -> (i: Option<usize>)
        ensures
            final(self)@ == after_take(old(self)@),
            match i {
                Some(i) => handed(old(self)@) == Some(i as nat),
                None => handed(old(self)@) is None,
            },
    {
        proof {
            use_type_invariant(&*self);
        }
        if self.taken < self.total {
            let i: usize = self.taken;
            self.taken = i + 1;
            Some(i)
        } else {
            None
        }
    }

    /// Takes note that a cleanup ended, and whether it went well.
    pub fn finish(&mut self, ok: bool)
        requires
            old(self)@.finished < old(self)@.taken,
        ensures
            final(self)@ == after_finish(old(self)@, ok),
    {
        proof {
            use_type_invariant(&*self);
        }
        self.finished = self.finished + 1;
        if !ok {
            self.failed = self.failed + 1;
        }
    }

    /// What came of the cycle.
    pub fn stats(&self) -> (s: CycleStats)
        ensures
            s.failed == self@.failed,
            s.discovery_failed == self@.discovery_failed,
    {
        CycleStats { failed: self.failed, discovery_failed: self.discovery_failed }
    }

    /// What is said when the cycle begins.
    pub fn opening(&self) -> (r: String)
        ensures
            r@ == opening(self@),
    {
        if self.total == 0 {
            return NO_REPOSITORIES.to_string();
        }
        let mut r = "starting cycle: ".to_string();
        let total = number(self.total as u128);
        r.append(total.as_str());
        r.append(" repositories (");
        let bare = number(self.bare as u128);
        r.append(bare.as_str());
        r.append(" bare), ");
        let workers = number(self.workers as u128);
        r.append(workers.as_str());
        r.append(" workers");
        r
    }

    /// What is said when the cycle ends. Nothing is, if there was nothing to
    /// do.
    pub fn closing(&self) -> (r: Option<String>)
        ensures
            text::opt_text(r) == closing(self@),
    {
        proof {
            use_type_invariant(self);
        }
        if self.total == 0 {
            return None;
        }
        let mut r = "cycle complete — ".to_string();
        let ok = number((self.total - self.failed) as u128);
        r.append(ok.as_str());
        r.append("/");
        let total = number(self.total as u128);
        r.append(total.as_str());
        r.append(" ok, ");
        let failed = number(self.failed as u128);
        r.append(failed.as_str());
        r.append(" failed");
        Some(r)
    }
}

// ── messages ─────────────────────────────────────────────────────────────────

/// Said when there is nothing to clean or to list.
pub const NO_REPOSITORIES: &'static str = "no repositories found";

/// Said when `ghq` was to be asked for repositories and gave no answer.
pub const DISCOVERY_FAILED: &'static str =
    "repository discovery failed: ghq list failed or ghq not found";

/// Said at the beginning of a dry run.
pub const DRY_RUN: &'static str = "dry-run mode — no git commands will be executed";

/// What is said when a cycle begins.
pub open spec fn opening(c: CycleView) -> Seq<char> {
    if c.total == 0 {
        NO_REPOSITORIES@
    } else {
        "starting cycle: "@ + text::decimal(c.total) + " repositories ("@ + text::decimal(c.bare)
            + " bare), "@ + text::decimal(c.workers) + " workers"@
    }
}

/// What is said when a cycle ends.
pub open spec fn closing(c: CycleView) -> Option<Seq<char>> {
    if c.total == 0 {
        None
    } else {
        Some(
            "cycle complete — "@ + text::decimal((c.total - c.failed) as nat) + "/"@
                + text::decimal(c.total) + " ok, "@ + text::decimal(c.failed) + " failed"@,
        )
    }
}

/// What a worker says when nothing is left for it.
pub fn worker_done(id: usize) -> (r: String)
    ensures
        r@ == "worker "@ + text::decimal(id as nat) + ": done"@,
{
    let mut r = "worker ".to_string();
    let n = number(id as u128);
    r.append(n.as_str());
    r.append(": done");
    r
}

/// What is said when the daemon starts.
pub fn daemon_mode(cfg: &Config) -> (r: String)
    ensures
        r@ == "daemon mode — interval "@ + text::decimal(cfg@.interval_secs) + "s, "@
            + text::decimal(cfg@.num_workers) + " workers"@,
        r@ == "daemon mode — interval "@ + text::decimal(cfg.interval_secs as nat) + "s, "@
            + text::decimal(cfg.num_workers.spec_get() as nat) + " workers"@,
{
    let mut r = "daemon mode — interval ".to_string();
    let secs = number(cfg.interval_secs as u128);
    r.append(secs.as_str());
    r.append("s, ");
    let workers = number(cfg.num_workers.get() as u128);
    r.append(workers.as_str());
    r.append(" workers");
    r
}

/// What is said between two cycles.
pub fn sleeping(secs: u64) -> (r: String)
    ensures
        r@ == "sleeping "@ + text::decimal(secs as nat) + "s"@,
{
    let mut r = "sleeping ".to_string();
    let n = number(secs as u128);
    r.append(n.as_str());
    r.append("s");
    r
}

// ── exit ─────────────────────────────────────────────────────────────────────

/// The exit code of a program that ran one cycle: zero if everything went well.
pub open spec fn exit_status(failed: nat, discovery_failed: bool) -> int {
    if failed > 0 || discovery_failed {
        1
    } else {
        0
    }
}

impl CycleStats {
    /// The exit code of a program that ran one cycle: zero if everything went
    /// well.
    pub fn exit_code(&self) -> (r: i32)
        ensures
            r == exit_status(self.failed as nat, self.discovery_failed),
            r == 0 || r == 1,
            r == 0 <==> self.failed == 0 && !self.discovery_failed,
    {
        if self.failed > 0 || self.discovery_failed {
            1
        } else {
            0
        }
    }
}

/// The exit code of a program whose arguments are wrong.
pub const USAGE_ERROR: i32 = 2;

// ── laws ─────────────────────────────────────────────────────────────────────

/// Something that happens in a cycle: a worker asks for a repository, or a
/// cleanup ends.
pub enum Event {
    Take,
    Finish(bool),
}

/// Whether an event can happen. No cleanup ends that was not begun.
pub open spec fn possible(c: CycleView, e: Event) -> bool {
    e is Finish ==> c.finished < c.taken
}

/// The cycle after an event.
pub open spec fn after_event(c: CycleView, e: Event) -> CycleView {
    match e {
        Event::Take => after_take(c),
        Event::Finish(ok) => after_finish(c, ok),
    }
}

/// The cycle after the events `es`.
pub open spec fn after_events(c: CycleView, es: Seq<Event>) -> CycleView
    decreases es.len(),
{
    if es.len() == 0 {
        c
    } else {
        after_event(after_events(c, es.drop_last()), es.last())
    }
}

/// Whether the events `es` can happen, one after the other.
pub open spec fn all_possible(c: CycleView, es: Seq<Event>) -> bool
    decreases es.len(),
{
    es.len() == 0 || (all_possible(c, es.drop_last()) && possible(
        after_events(c, es.drop_last()),
        es.last(),
    ))
}

/// The repositories handed out by the events `es`, in order.
pub open spec fn handed_out(c: CycleView, es: Seq<Event>) -> Seq<nat>
    decreases es.len(),
{
    if es.len() == 0 {
        Seq::<nat>::empty()
    } else {
        let before = handed_out(c, es.drop_last());
        match (es.last(), handed(after_events(c, es.drop_last()))) {
            (Event::Take, Some(i)) => before.push(i),
            _ => before,
        }
    }
}

/// The number of events in `es` that are `e`.
pub open spec fn occurrences(es: Seq<Event>, e: Event) -> nat
    decreases es.len(),
{
    if es.len() == 0 {
        0
    } else {
        occurrences(es.drop_last(), e) + (if es.last() == e {
            1nat
        } else {
            0nat
        })
    }
}

/// However the workers take turns, each repository is handed out at most once,
/// in the order of the list, and all of them are if the workers ask often
/// enough.
pub proof fn repositories_are_handed_out_once(
    repos: Seq<RepoView>,
    workers: nat,
    discovery_failed: bool,
    es: Seq<Event>,
)
    ensures
        ({
            let asked = occurrences(es, Event::Take);
            let m = if asked <= repos.len() {
                asked
            } else {
                repos.len()
            };
            handed_out(begun(repos, workers, discovery_failed), es) == Seq::new(
                m,
                |i: int| i as nat,
            )
        }),
{
    lemma_handed_out(begun(repos, workers, discovery_failed), es);
}

proof fn lemma_handed_out(c: CycleView, es: Seq<Event>)
    requires
        c.taken == 0,
    ensures
        ({
            let asked = occurrences(es, Event::Take);
            let m = if asked <= c.total {
                asked
            } else {
                c.total
            };
            &&& after_events(c, es).taken == m
            &&& after_events(c, es).total == c.total
            &&& handed_out(c, es) == Seq::new(m, |i: int| i as nat)
        }),
    decreases es.len(),
{
    if es.len() == 0 {
        assert(handed_out(c, es) =~= Seq::new(0, |i: int| i as nat));
    } else {
        lemma_handed_out(c, es.drop_last());
        let m = after_events(c, es).taken;
        assert(handed_out(c, es) =~= Seq::new(m, |i: int| i as nat));
    }
}

/// The numbers of a cycle always agree with each other, and it counts every
/// failure and nothing else.
pub proof fn failures_are_counted(
    repos: Seq<RepoView>,
    workers: nat,
    discovery_failed: bool,
    es: Seq<Event>,
)
    requires
        workers > 0,
        all_possible(begun(repos, workers, discovery_failed), es),
    ensures
        consistent(after_events(begun(repos, workers, discovery_failed), es)),
        after_events(begun(repos, workers, discovery_failed), es).failed == occurrences(
            es,
            Event::Finish(false),
        ),
        after_events(begun(repos, workers, discovery_failed), es).finished == occurrences(
            es,
            Event::Finish(false),
        ) + occurrences(es, Event::Finish(true)),
        after_events(begun(repos, workers, discovery_failed), es).discovery_failed
            == discovery_failed,
    decreases es.len(),
{
    if es.len() == 0 {
        repos.lemma_filter_len(|r: RepoView| r.kind is Bare);
    } else {
        failures_are_counted(repos, workers, discovery_failed, es.drop_last());
    }
}

/// The exit code is zero just if the repositories could all be looked for and
/// no cleanup failed; and when every cleanup is finished, those that are
/// reported as well are just those that went well.
pub proof fn success_is_reported_faithfully(
    repos: Seq<RepoView>,
    workers: nat,
    discovery_failed: bool,
    es: Seq<Event>,
)
    requires
        workers > 0,
        all_possible(begun(repos, workers, discovery_failed), es),
    ensures
        ({
            let c = after_events(begun(repos, workers, discovery_failed), es);
            &&& exit_status(c.failed, c.discovery_failed) == 0 <==> !discovery_failed
                && occurrences(es, Event::Finish(false)) == 0
            &&& c.finished == c.total ==> c.total - c.failed == occurrences(
                es,
                Event::Finish(true),
            )
        }),
{
    failures_are_counted(repos, workers, discovery_failed, es);
}

/// A cycle begins with nothing handed out and nothing finished. There are as
/// many workers as the settings ask for, but no more than repositories.
pub proof fn cycles_begin_with_nothing_done(
    repos: Seq<RepoView>,
    workers: nat,
    discovery_failed: bool,
)
    ensures
        ({
            let c = begun(repos, workers, discovery_failed);
            &&& c.total == repos.len()
            &&& c.workers <= workers
            &&& c.workers <= repos.len()
            &&& c.workers == workers || c.workers == repos.len()
            &&& c.taken == 0 && c.finished == 0 && c.failed == 0
            &&& c.discovery_failed == discovery_failed
            &&& c.bare == bare_count(repos)
        }),
{
}

/// The bare repositories are counted one by one.
pub proof fn bare_repositories_are_counted(repos: Seq<RepoView>, r: RepoView)
    ensures
        bare_count(Seq::<RepoView>::empty()) == 0,
        bare_count(repos.push(r)) == bare_count(repos) + (if r.kind is Bare {
            1nat
        } else {
            0nat
        }),
{
    let is_bare = |x: RepoView| x.kind is Bare;
    Seq::<RepoView>::empty().lemma_filter_len(is_bare);
    repos.lemma_filter_push(r, is_bare);
}

/// Handing out a repository changes nothing but what is left; the end of a
/// cleanup changes nothing but what is finished and what failed.
pub proof fn events_are_counted_once(c: CycleView, ok: bool)
    ensures
        handed(c) == (if c.taken < c.total {
            Some(c.taken)
        } else {
            None
        }),
        after_take(c).taken == (if c.taken < c.total {
            c.taken + 1
        } else {
            c.taken
        }),
        after_take(c).total == c.total,
        after_take(c).bare == c.bare,
        after_take(c).workers == c.workers,
        after_take(c).finished == c.finished,
        after_take(c).failed == c.failed,
        after_take(c).discovery_failed == c.discovery_failed,
        after_finish(c, ok).finished == c.finished + 1,
        after_finish(c, true).failed == c.failed,
        after_finish(c, false).failed == c.failed + 1,
        after_finish(c, ok).total == c.total,
        after_finish(c, ok).bare == c.bare,
        after_finish(c, ok).workers == c.workers,
        after_finish(c, ok).taken == c.taken,
        after_finish(c, ok).discovery_failed == c.discovery_failed,
{
}

/// What is said at the beginning and at the end of a cycle.
pub proof fn cycles_are_reported_in_numbers(c: CycleView)
    ensures
        c.total == 0 ==> opening(c) == "no repositories found"@ && closing(c) is None,
        c.total > 0 ==> opening(c) == "starting cycle: "@ + text::decimal(c.total)
            + " repositories ("@ + text::decimal(c.bare) + " bare), "@ + text::decimal(c.workers)
            + " workers"@,
        c.total > 0 && c.failed <= c.total ==> closing(c) == Some(
            "cycle complete — "@ + text::decimal((c.total - c.failed) as nat) + "/"@
                + text::decimal(c.total) + " ok, "@ + text::decimal(c.failed) + " failed"@,
        ),
{
}

/// The fixed messages, and the exit code for wrong arguments.
pub proof fn fixed_messages_are_these()
    ensures
        NO_REPOSITORIES@ == "no repositories found"@,
        DISCOVERY_FAILED@ == "repository discovery failed: ghq list failed or ghq not found"@,
        DRY_RUN@ == "dry-run mode — no git commands will be executed"@,
        USAGE_ERROR == 2,
{
}

} // verus!
