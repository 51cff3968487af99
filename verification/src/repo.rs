//! Finding repositories: candidate paths, what Git says about them, and which
//! of them are kept.
use vstd::prelude::*;
use vstd::string::*;

use crate::call;
use crate::call::{CallView, GitCall, Output, Profile};
use crate::config::Config;
use crate::text;
use crate::text::{chars_of, copy_texts, is_one_of, lines, nonblank_lines, same, trim, utf8_string};
use crate::text_laws;

verus! {

/// Whether a repository has a working tree (`Normal`) or not (`Bare`).
///
/// What needs a working tree (worktrees, submodules, branch pruning) is left
/// out for a bare repository.
#[derive(Debug, Clone, Copy, PartialEq, Eq, Structural)]
pub enum RepoKind {
    Normal,
    Bare,
}

impl RepoKind {
    /// The kind of a repository that is bare, or is not.
    pub fn from_is_bare(is_bare: bool) -> (k: RepoKind)
        ensures
            k == (if is_bare { RepoKind::Bare } else { RepoKind::Normal }),
    {
        if is_bare {
            RepoKind::Bare
        } else {
            RepoKind::Normal
        }
    }

    /// Whether the repository is bare.
    pub fn is_bare(self) -> (r: bool)
        ensures
            r == (self is Bare),
    {
        matches!(self, RepoKind::Bare)
    }

    /// The short label in a listing.
    pub fn label(self) -> (r: &'static str)
        ensures
            r@ == kind_label(self),
            self is Normal ==> r@ == "norm"@,
            self is Bare ==> r@ == "bare"@,
    {
        match self {
            RepoKind::Normal => "norm",
            RepoKind::Bare => "bare",
        }
    }
}

/// The short label of a kind of repository.
pub open spec fn kind_label(k: RepoKind) -> Seq<char> {
    match k {
        RepoKind::Normal => "norm"@,
        RepoKind::Bare => "bare"@,
    }
}

/// A repository to clean.
#[derive(Debug)]
pub struct RepoInfo {
    pub path: String,
    pub kind: RepoKind,
}

/// The text of a `RepoInfo`.
pub struct RepoView {
    pub path: Seq<char>,
    pub kind: RepoKind,
}

impl View for RepoInfo {
    type V = RepoView;

    open spec fn view(&self) -> RepoView {
        RepoView { path: self.path@, kind: self.kind }
    }
}

/// The views of a list of repositories.
pub open spec fn repo_views(v: Seq<RepoInfo>) -> Seq<RepoView> {
    v.map_values(|r: RepoInfo| r@)
}

impl RepoInfo {
    /// The line for this repository in a listing.
    pub fn list_line(&self) -> (r: String)
        ensures
            r@ == kind_label(self.kind) + "  "@ + self.path@,
            self.kind is Normal ==> r@ == "norm"@ + "  "@ + self.path@,
            self.kind is Bare ==> r@ == "bare"@ + "  "@ + self.path@,
    {
        let mut r = self.kind.label().to_string();
        r.append("  ");
        r.append(self.path.as_str());
        r
    }
}

// ── order of texts ───────────────────────────────────────────────────────────

/// Whether `a` stands before `b` in the order of their characters' code
/// points.
pub open spec fn before(a: Seq<char>, b: Seq<char>) -> bool
    decreases a.len(),
{
    if b.len() == 0 {
        false
    } else if a.len() == 0 {
        true
    } else if a[0] == b[0] {
        before(a.drop_first(), b.drop_first())
    } else {
        a[0] < b[0]
    }
}

/// Whether each text stands before all that follow it.
pub open spec fn ascending(v: Seq<Seq<char>>) -> bool {
    forall|i: int, j: int| 0 <= i < j < v.len() ==> before(#[trigger] v[i], #[trigger] v[j])
}

fn comes_before(a: &str, b: &str) -> (r: bool)
    ensures
        r == before(a@, b@),
{
    let x = chars_of(a);
    let y = chars_of(b);
    let mut i: usize = 0;
    assert(a@.skip(0) =~= a@);
    assert(b@.skip(0) =~= b@);
    while i < x.len() && i < y.len()
        invariant
            x@ == a@,
            y@ == b@,
            i <= x@.len(),
            i <= y@.len(),
            before(a@, b@) == before(a@.skip(i as int), b@.skip(i as int)),
        decreases x@.len() - i,
    {
        if x[i] != y[i] {
            return x[i] < y[i];
        }
        assert(a@.skip(i as int).drop_first() =~= a@.skip(i + 1));
        assert(b@.skip(i as int).drop_first() =~= b@.skip(i + 1));
        i = i + 1;
    }
    i < y.len()
}

proof fn lemma_before_irreflexive(a: Seq<char>)
    ensures
        !before(a, a),
    decreases a.len(),
{
    if a.len() > 0 {
        lemma_before_irreflexive(a.drop_first());
    }
}

proof fn lemma_before_transitive(a: Seq<char>, b: Seq<char>, c: Seq<char>)
    requires
        before(a, b),
        before(b, c),
    ensures
        before(a, c),
    decreases a.len(),
{
    if a.len() > 0 && a[0] == b[0] && b[0] == c[0] {
        lemma_before_transitive(a.drop_first(), b.drop_first(), c.drop_first());
    }
}

proof fn lemma_before_total(a: Seq<char>, b: Seq<char>)
    ensures
        before(a, b) || before(b, a) || a == b,
    decreases a.len(),
{
    if a.len() > 0 && b.len() > 0 && a[0] == b[0] {
        lemma_before_total(a.drop_first(), b.drop_first());
        if a.drop_first() == b.drop_first() {
            assert(a =~= seq![a[0]] + a.drop_first());
            assert(b =~= seq![b[0]] + b.drop_first());
        }
    } else if a.len() == 0 && b.len() == 0 {
        assert(a =~= b);
    }
}

/// The order of texts is a strict total order.
pub proof fn texts_are_totally_ordered(a: Seq<char>, b: Seq<char>, c: Seq<char>)
    ensures
        !before(a, a),
        before(a, b) && before(b, c) ==> before(a, c),
        before(a, b) || before(b, a) || a == b,
{
    lemma_before_irreflexive(a);
    if before(a, b) && before(b, c) {
        lemma_before_transitive(a, b, c);
    }
    lemma_before_total(a, b);
}

/// Puts `t` in its place in an ascending list, unless it is there already.
fn insert_sorted(v: &mut Vec<String>, t: String)
    requires
        ascending(text::texts(old(v)@)),
    ensures
        ascending(text::texts(final(v)@)),
        forall|u: Seq<char>| #[trigger]
            text::texts(final(v)@).contains(u) <==> text::texts(old(v)@).contains(u) || u == t@,
{
    let ghost was = text::texts(v@);
    let mut i: usize = 0;
    while i < v.len() && comes_before(v[i].as_str(), t.as_str())
        invariant
            i <= v@.len(),
            was == text::texts(v@),
            forall|j: int| 0 <= j < i ==> before(#[trigger] was[j], t@),
        decreases v@.len() - i,
    {
        assert(was[i as int] == v@[i as int]@);
        i = i + 1;
    }
    if i < v.len() {
        assert(was[i as int] == v@[i as int]@);
        if same(v[i].as_str(), t.as_str()) {
            return;
        }
    }
    proof {
        if i < was.len() {
            lemma_before_total(was[i as int], t@);
            assert(before(t@, was[i as int]));
            assert forall|j: int| i <= j < was.len() implies before(t@, #[trigger] was[j]) by {
                if j > i {
                    lemma_before_transitive(t@, was[i as int], was[j]);
                }
            }
        }
    }
    let ghost u0 = t@;
    v.insert(i, t);
    let ghost now = text::texts(v@);
    assert(now =~= was.insert(i as int, u0));
    assert forall|a: int, b: int| 0 <= a < b < now.len() implies before(
        #[trigger] now[a],
        #[trigger] now[b],
    ) by {
        let a0 = if a < i { a } else { a - 1 };
        let b0 = if b < i { b } else { b - 1 };
        if a != i {
            assert(now[a] == was[a0]);
        }
        if b != i {
            assert(now[b] == was[b0]);
        }
    }
    assert forall|u: Seq<char>| #[trigger] now.contains(u) <==> was.contains(u) || u == u0 by {
        if was.contains(u) {
            let k = choose|k: int| 0 <= k < was.len() && was[k] == u;
            let k1 = if k < i { k } else { k + 1 };
            assert(now[k1] == u);
        }
        if u == u0 {
            assert(now[i as int] == u);
        }
        if now.contains(u) {
            let k = choose|k: int| 0 <= k < now.len() && now[k] == u;
            if k != i {
                let k0 = if k < i { k } else { k - 1 };
                assert(was[k0] == u);
            }
        }
    }
}

/// Whether `t` occurs in one of `lists`.
pub open spec fn in_some(lists: Seq<Vec<String>>, t: Seq<char>) -> bool {
    exists|k: int| 0 <= k < lists.len() && #[trigger] text::texts(lists[k]@).contains(t)
}

/// Every text that occurs in `lists`, once, in ascending order.
pub fn dedup_sorted(lists: Vec<Vec<String>>) -> (r: Vec<String>)
    ensures
        ascending(text::texts(r@)),
        forall|t: Seq<char>| #[trigger] text::texts(r@).contains(t) <==> in_some(lists@, t),
{
    let mut r: Vec<String> = Vec::new();
    for k in 0..lists.len()
        invariant
            ascending(text::texts(r@)),
            forall|t: Seq<char>| #[trigger]
                text::texts(r@).contains(t) <==> in_some(lists@.take(k as int), t),
    {
        let list = &lists[k];
        let ghost whole = lists@.take(k + 1);
        let ghost part = lists@.take(k as int);
        for i in 0..list.len()
            invariant
                0 <= k < lists@.len(),
                list@ == lists@[k as int]@,
                part == lists@.take(k as int),
                ascending(text::texts(r@)),
                forall|t: Seq<char>| #[trigger]
                    text::texts(r@).contains(t) <==> in_some(part, t) || text::texts(
                        list@,
                    ).take(i as int).contains(t),
        {
            let t = list[i].clone();
            let ghost l = text::texts(list@);
            let ghost u0 = t@;
            assert(l[i as int] == u0);
            insert_sorted(&mut r, t);
            assert forall|t: Seq<char>|
                l.take(i + 1).contains(t) <==> l.take(i as int).contains(t) || t == u0 by {
                assert(l.take(i + 1) =~= l.take(i as int).push(u0));
                if l.take(i as int).contains(t) {
                    let j = choose|j: int| 0 <= j < i && l.take(i as int)[j] == t;
                    assert(l.take(i + 1)[j] == t);
                }
                if t == u0 {
                    assert(l.take(i + 1)[i as int] == t);
                }
                if l.take(i + 1).contains(t) {
                    let l1 = l.take(i + 1);
                    let j = choose|j: int| 0 <= j < l1.len() && l1[j] == t;
                    if j < i {
                        assert(l.take(i as int)[j] == t);
                    }
                }
            }
        }
        assert(text::texts(list@).take(list@.len() as int) =~= text::texts(list@));
        assert forall|t: Seq<char>|
            in_some(whole, t) <==> in_some(part, t) || text::texts(list@).contains(t) by {
            if in_some(part, t) {
                let j = choose|j: int|
                    0 <= j < part.len() && #[trigger] text::texts(part[j]@).contains(t);
                assert(whole[j] == part[j]);
            }
            if text::texts(list@).contains(t) {
                assert(text::texts(whole[k as int]@).contains(t));
            }
            if in_some(whole, t) {
                let j = choose|j: int|
                    0 <= j < whole.len() && #[trigger] text::texts(whole[j]@).contains(t);
                if j < k {
                    assert(part[j] == whole[j]);
                }
            }
        }
    }
    assert(lists@.take(lists@.len() as int) =~= lists@);
    r
}

/// An ascending list is determined by the texts in it, whatever order they
/// came in.
pub proof fn ascending_lists_are_determined(a: Seq<Seq<char>>, b: Seq<Seq<char>>)
    requires
        ascending(a),
        ascending(b),
        forall|t: Seq<char>| #[trigger] a.contains(t) <==> b.contains(t),
    ensures
        a == b,
    decreases a.len(),
{
    if a.len() == 0 {
        if b.len() > 0 {
            assert(b.contains(b[0]));
            assert(a.contains(b[0]));
        }
        assert(a =~= b);
    } else {
        assert(a.contains(a.last()));
        let j = choose|j: int| 0 <= j < b.len() && b[j] == a.last();
        assert(b.contains(b.last()));
        assert(a.contains(b.last()));
        let i = choose|i: int| 0 <= i < a.len() && a[i] == b.last();
        lemma_before_irreflexive(a.last());
        if i < a.len() - 1 && j < b.len() - 1 {
            lemma_before_transitive(a[i], a.last(), b.last());
            lemma_before_irreflexive(b.last());
        }
        assert(a.last() == b.last());
        let a1 = a.drop_last();
        let b1 = b.drop_last();
        assert forall|t: Seq<char>| #[trigger] a1.contains(t) <==> b1.contains(t) by {
            lemma_without_last(a, t);
            lemma_without_last(b, t);
            assert(a.contains(t) <==> b.contains(t));
        }
        ascending_lists_are_determined(a1, b1);
        assert(a =~= a1.push(a.last()));
        assert(b =~= b1.push(b.last()));
    }
}

proof fn lemma_without_last(a: Seq<Seq<char>>, t: Seq<char>)
    requires
        ascending(a),
        a.len() > 0,
    ensures
        a.drop_last().contains(t) <==> a.contains(t) && t != a.last(),
{
    lemma_before_irreflexive(a.last());
    if a.drop_last().contains(t) {
        let k = choose|k: int| 0 <= k < a.len() - 1 && a.drop_last()[k] == t;
        assert(a[k] == t);
        assert(before(a[k], a[a.len() - 1]));
    }
    if a.contains(t) && t != a.last() {
        let k = choose|k: int| 0 <= k < a.len() && a[k] == t;
        assert(a.drop_last()[k] == t);
    }
}

// ── discovery ────────────────────────────────────────────────────────────────

/// The paths that `ghq` listed, if it ran and succeeded.
pub open spec fn ghq_paths(o: Output) -> Option<Seq<Seq<char>>> {
    match call::printed(o) {
        Some(t) => Some(text::trimmed_lines(t)),
        None => None,
    }
}

/// The paths that `ghq list -p` printed, if it ran and succeeded.
pub fn ghq_repos(o: &Output) -> (r: Option<Vec<String>>)
    ensures
        r is Some <==> ghq_paths(*o) is Some,
        r matches Some(v) ==> Some(text::texts(v@)) == ghq_paths(*o),
        r is Some <==> (*o matches Output::Exited { success, .. } && success),
        r matches Some(v) ==> (*o matches Output::Exited { stdout, .. } && text::texts(v@)
            == text::trimmed_lines(text::decoded(stdout@))),
{
    match o.text() {
        Some(t) => Some(nonblank_lines(t.as_str())),
        None => None,
    }
}

/// Where to look for repositories.
#[derive(Debug)]
pub struct Discovery {
    /// The paths to look at.
    pub paths: Vec<String>,
    /// Whether `ghq` was to be asked and gave no answer.
    pub failed: bool,
}

/// What `ghq` answered, if it was to be asked.
pub open spec fn ghq_answer(enabled: bool, ghq: Option<Output>) -> Option<Seq<Seq<char>>> {
    match ghq {
        Some(o) => if enabled {
            ghq_paths(o)
        } else {
            None
        },
        None => None,
    }
}

/// The paths to look at: those of the settings and, if the settings ask for
/// it, those that `ghq` listed. `ghq` is the result of running `ghq list -p`;
/// nothing stands for a run that was not made.
pub fn discover(cfg: &Config, ghq: &Option<Output>) -> (d: Discovery)
    ensures
        ascending(text::texts(d.paths@)),
        forall|t: Seq<char>| #[trigger]
            text::texts(d.paths@).contains(t) <==> cfg@.repos.contains(t) || (ghq_answer(
                cfg.ghq_enable,
                *ghq,
            ) matches Some(listed) && listed.contains(t)),
        d.failed == (cfg.ghq_enable && ghq_answer(cfg.ghq_enable, *ghq) is None),
        d.failed == (cfg.ghq_enable && match *ghq {
            Some(Output::Exited { success, .. }) => !success,
            _ => true,
        }),
        forall|t: Seq<char>| #[trigger]
            text::texts(d.paths@).contains(t) <==> text::texts(cfg.repos@).contains(t) || (
            cfg.ghq_enable && match *ghq {
                Some(Output::Exited { success: true, stdout, .. }) => text::trimmed_lines(
                    text::decoded(stdout@),
                ).contains(t),
                _ => false,
            }),
{
    let listed = match ghq {
        Some(o) => if cfg.ghq_enable {
            ghq_repos(o)
        } else {
            None
        },
        None => None,
    };
    let failed = cfg.ghq_enable && listed.is_none();
    let own = copy_texts(&cfg.repos);
    let mut lists: Vec<Vec<String>> = Vec::new();
    let ghost own_texts = text::texts(own@);
    lists.push(own);
    match listed {
        Some(l) => {
            let ghost listed_texts = text::texts(l@);
            lists.push(l);
            assert forall|t: Seq<char>|
                in_some(lists@, t) <==> own_texts.contains(t) || listed_texts.contains(t) by {
                if own_texts.contains(t) {
                    assert(text::texts(lists@[0]@).contains(t));
                }
                if listed_texts.contains(t) {
                    assert(text::texts(lists@[1]@).contains(t));
                }
            }
        },
        None => {
            assert forall|t: Seq<char>| in_some(lists@, t) <==> own_texts.contains(t) by {
                if own_texts.contains(t) {
                    assert(text::texts(lists@[0]@).contains(t));
                }
            }
        },
    }
    Discovery { paths: dedup_sorted(lists), failed }
}

/// The question whose answer says whether `dir` is in a repository, whether
/// that is bare, and where its files are. Linked worktrees of one repository
/// share those files.
pub fn probe_repo(dir: &str) -> (c: GitCall)
    ensures
        c@ == (CallView {
            dir: dir@,
            args: seq![
                "rev-parse"@,
                "--path-format=absolute"@,
                "--is-bare-repository"@,
                "--git-common-dir"@,
            ],
            profile: Profile::Probe,
        }),
{
    let args = [
        "rev-parse",
        "--path-format=absolute",
        "--is-bare-repository",
        "--git-common-dir",
    ];
    assert(text::slices(args@) =~= seq![
        "rev-parse"@,
        "--path-format=absolute"@,
        "--is-bare-repository"@,
        "--git-common-dir"@,
    ]);
    GitCall::new(dir, &args, Profile::Probe)
}

/// What the answer to `probe_repo` says: on the first line whether the
/// repository is bare, on the second where its files are.
pub open spec fn probed(o: Output) -> Option<(RepoKind, Seq<char>)> {
    match o {
        Output::Exited { success, stdout, .. } => {
            let l = text::line_texts(vstd::utf8::decode_utf8(stdout@));
            if success && vstd::utf8::valid_utf8(stdout@) && l.len() >= 2 {
                let kind = if text::trimmed(l[0]) == "true"@ {
                    RepoKind::Bare
                } else {
                    RepoKind::Normal
                };
                Some((kind, text::trimmed(l[1])))
            } else {
                None
            }
        },
        Output::NotRun { .. } => None,
    }
}

/// What the answer to `probe_repo` says; nothing if there is no repository.
pub fn read_probe(o: &Output) -> (r: Option<(RepoKind, String)>)
    ensures
        probe_text(r) == probed(*o),
{
    match o {
        Output::Exited { success, stdout, .. } => {
            if !*success {
                return None;
            }
            match utf8_string(stdout) {
                Some(t) => {
                    let l = lines(t.as_str());
                    assert(text::texts(l@).len() == l@.len());
                    if l.len() < 2 {
                        return None;
                    }
                    assert(text::texts(l@)[0] == l@[0]@);
                    assert(text::texts(l@)[1] == l@[1]@);
                    let is_bare = same(trim(l[0].as_str()), "true");
                    let git_dir = trim(l[1].as_str()).to_string();
                    Some((RepoKind::from_is_bare(is_bare), git_dir))
                },
                None => None,
            }
        },
        Output::NotRun { .. } => None,
    }
}

/// The text of an answer to `probe_repo`.
pub open spec fn probe_text(p: Option<(RepoKind, String)>) -> Option<(RepoKind, Seq<char>)> {
    match p {
        Some((kind, dir)) => Some((kind, dir@)),
        None => None,
    }
}

/// A path that was looked at, and the repository that was found there, if any.
#[derive(Debug)]
pub struct Candidate {
    pub path: String,
    pub probe: Option<(RepoKind, String)>,
}

/// The texts of a `Candidate`.
pub struct CandidateView {
    pub path: Seq<char>,
    pub probe: Option<(RepoKind, Seq<char>)>,
}

impl View for Candidate {
    type V = CandidateView;

    open spec fn view(&self) -> CandidateView {
        CandidateView { path: self.path@, probe: probe_text(self.probe) }
    }
}

/// The views of a list of candidates.
pub open spec fn candidate_views(v: Seq<Candidate>) -> Seq<CandidateView> {
    v.map_values(|c: Candidate| c@)
}

/// Whether a repository was found at candidate `i` whose files belong to no
/// earlier candidate.
pub open spec fn is_first(c: Seq<CandidateView>, i: int) -> bool {
    &&& c[i].probe is Some
    &&& forall|j: int|
        0 <= j < i && (#[trigger] c[j]).probe is Some ==> c[j].probe->Some_0.1
            != c[i].probe->Some_0.1
}

/// The repositories to clean: of the candidates that lead to the same files,
/// the first.
pub open spec fn collected(c: Seq<CandidateView>) -> Seq<RepoView>
    decreases c.len(),
{
    if c.len() == 0 {
        Seq::<RepoView>::empty()
    } else {
        let rest = collected(c.drop_last());
        if is_first(c, c.len() - 1) {
            rest.push(RepoView { path: c.last().path, kind: c.last().probe->Some_0.0 })
        } else {
            rest
        }
    }
}

/// The repositories to clean: of the candidates that lead to the same files,
/// the first, so that no two workers meet in one repository.
pub fn collect_repos(candidates: Vec<Candidate>) -> (r: Vec<RepoInfo>)
    ensures
        repo_views(r@) == collected(candidate_views(candidates@)),
{
    let ghost all = candidate_views(candidates@);
    let mut seen: Vec<String> = Vec::new();
    let mut r: Vec<RepoInfo> = Vec::new();
    assert(all.take(0) =~= Seq::<CandidateView>::empty());
    assert(repo_views(r@) =~= collected(all.take(0)));
    for i in 0..candidates.len()
        invariant
            all == candidate_views(candidates@),
            repo_views(r@) == collected(all.take(i as int)),
            forall|d: Seq<char>| #[trigger]
                text::texts(seen@).contains(d) <==> exists|j: int|
                    0 <= j < i && (#[trigger] all[j]).probe is Some && all[j].probe->Some_0.1 == d,
    {
        let c = &candidates[i];
        let ghost part = all.take(i + 1);
        assert(all[i as int] == c@);
        assert(part.drop_last() =~= all.take(i as int));
        assert(part.last() == c@);
        assert forall|j: int| 0 <= j < i implies #[trigger] part[j] == all[j] by {}
        match &c.probe {
            Some((kind, git_dir)) => {
                assert(c@.probe == Some((*kind, git_dir@)));
                if !is_one_of(&seen, git_dir.as_str()) {
                    assert(is_first(part, i as int)) by {
                        assert forall|j: int|
                            0 <= j < i && (
                            #[trigger] part[j]).probe is Some implies part[j].probe->Some_0.1
                            != part[i as int].probe->Some_0.1 by {
                            assert(all[j].probe is Some);
                        }
                    }
                    let ghost seen0 = text::texts(seen@);
                    let ghost r0 = repo_views(r@);
                    seen.push(git_dir.clone());
                    r.push(RepoInfo { path: c.path.clone(), kind: *kind });
                    assert(repo_views(r@) =~= r0.push(
                        RepoView { path: c@.path, kind: c@.probe->Some_0.0 },
                    ));
                    assert(text::texts(seen@) =~= seen0.push(git_dir@));
                    assert forall|d: Seq<char>| #[trigger]
                        text::texts(seen@).contains(d) <==> exists|j: int|
                            0 <= j < i + 1 && (
                            #[trigger] all[j]).probe is Some && all[j].probe->Some_0.1 == d by {
                        if seen0.contains(d) {
                            let k = choose|k: int| 0 <= k < seen0.len() && seen0[k] == d;
                            assert(text::texts(seen@)[k] == d);
                        }
                        if d == git_dir@ {
                            assert(text::texts(seen@)[seen0.len() as int] == d);
                            assert(all[i as int].probe is Some);
                        }
                    }
                } else {
                    assert(!is_first(part, i as int)) by {
                        let j = choose|j: int|
                            0 <= j < i && (#[trigger] all[j]).probe is Some
                                && all[j].probe->Some_0.1 == git_dir@;
                        assert(part[j].probe is Some);
                    }
                }
            },
            None => {},
        }
    }
    assert(all.take(candidates@.len() as int) =~= all);
    r
}

/// The repositories to clean come in the order of their candidates: if the
/// candidates' paths ascend, so do theirs, and every one of them is a
/// candidate's path.
pub proof fn collected_paths_keep_their_order(c: Seq<CandidateView>)
    requires
        ascending(c.map_values(|x: CandidateView| x.path)),
    ensures
        ascending(collected(c).map_values(|r: RepoView| r.path)),
        forall|i: int|
            0 <= i < collected(c).len() ==> exists|j: int|
                0 <= j < c.len() && (#[trigger] c[j]).path == (#[trigger] collected(c)[i]).path,
    decreases c.len(),
{
    if c.len() > 0 {
        let d = c.drop_last();
        let paths = c.map_values(|x: CandidateView| x.path);
        let dpaths = d.map_values(|x: CandidateView| x.path);
        assert forall|i: int, j: int| 0 <= i < j < dpaths.len() implies before(
            #[trigger] dpaths[i],
            #[trigger] dpaths[j],
        ) by {
            assert(paths[i] == dpaths[i] && paths[j] == dpaths[j]);
        }
        collected_paths_keep_their_order(d);
        let out = collected(c);
        let rest = collected(d);
        let outp = out.map_values(|r: RepoView| r.path);
        let restp = rest.map_values(|r: RepoView| r.path);
        assert forall|i: int| 0 <= i < out.len() implies exists|j: int|
            0 <= j < c.len() && (#[trigger] c[j]).path == (#[trigger] out[i]).path by {
            if i < rest.len() {
                assert(out[i] == rest[i]);
                let j = choose|j: int| 0 <= j < d.len() && (#[trigger] d[j]).path == rest[i].path;
                assert(c[j].path == out[i].path);
            } else {
                assert(c[c.len() - 1].path == out[i].path);
            }
        }
        assert forall|i: int, j: int| 0 <= i < j < outp.len() implies before(
            #[trigger] outp[i],
            #[trigger] outp[j],
        ) by {
            assert(outp[i] == restp[i]);
            if j < rest.len() {
                assert(outp[j] == restp[j]);
            } else {
                let k = choose|k: int| 0 <= k < d.len() && (#[trigger] d[k]).path == rest[i].path;
                assert(paths[k] == outp[i]);
                assert(paths[c.len() - 1] == outp[j]);
            }
        }
    }
}

/// The candidates that are kept, by their places in the list.
pub open spec fn firsts(c: Seq<CandidateView>) -> Seq<int>
    decreases c.len(),
{
    if c.len() == 0 {
        Seq::<int>::empty()
    } else if is_first(c, c.len() - 1) {
        firsts(c.drop_last()).push(c.len() - 1)
    } else {
        firsts(c.drop_last())
    }
}

/// What is collected are the kept candidates, in their order, and no others.
pub proof fn first_candidates_are_collected(c: Seq<CandidateView>)
    ensures
        collected(c).len() == firsts(c).len(),
        forall|k: int|
            0 <= k < firsts(c).len() ==> {
                let j = #[trigger] firsts(c)[k];
                &&& 0 <= j < c.len()
                &&& is_first(c, j)
                &&& collected(c)[k] == (RepoView { path: c[j].path, kind: c[j].probe->Some_0.0 })
            },
        forall|k: int, l: int|
            0 <= k < l < firsts(c).len() ==> #[trigger] firsts(c)[k] < #[trigger] firsts(c)[l],
        forall|j: int| 0 <= j < c.len() && #[trigger] is_first(c, j) ==> firsts(c).contains(j),
    decreases c.len(),
{
    if c.len() > 0 {
        let d = c.drop_last();
        first_candidates_are_collected(d);
        assert forall|j: int| 0 <= j < d.len() implies #[trigger] is_first(c, j) == is_first(d, j) by {
            assert(c[j] == d[j]);
            assert forall|i: int| 0 <= i < j implies #[trigger] c[i] == d[i] by {}
            if is_first(d, j) {
                assert forall|i: int| 0 <= i < j && (#[trigger] c[i]).probe is Some implies
                    c[i].probe->Some_0.1 != c[j].probe->Some_0.1 by {
                    assert(d[i].probe is Some);
                }
            }
            if is_first(c, j) {
                assert forall|i: int| 0 <= i < j && (#[trigger] d[i]).probe is Some implies
                    d[i].probe->Some_0.1 != d[j].probe->Some_0.1 by {
                    assert(c[i].probe is Some);
                }
            }
        }
        let f = firsts(c);
        let g = firsts(d);
        assert forall|k: int| 0 <= k < f.len() implies {
            let j = #[trigger] f[k];
            &&& 0 <= j < c.len()
            &&& is_first(c, j)
            &&& collected(c)[k] == (RepoView { path: c[j].path, kind: c[j].probe->Some_0.0 })
        } by {
            if k < g.len() {
                assert(f[k] == g[k]);
                assert(is_first(d, g[k]));
                assert(is_first(c, g[k]));
            }
        }
        assert forall|k: int, l: int| 0 <= k < l < f.len() implies #[trigger] f[k] < #[trigger] f[l] by {
            assert(f[k] == g[k]);
            if l < g.len() {
                assert(f[l] == g[l]);
            }
        }
        assert forall|j: int| 0 <= j < c.len() && #[trigger] is_first(c, j) implies f.contains(j) by {
            if j < d.len() {
                assert(g.contains(j));
                let k = choose|k: int| 0 <= k < g.len() && g[k] == j;
                assert(f[k] == j);
            } else {
                assert(f[f.len() - 1] == j);
            }
        }
    }
}

/// No repository is cleaned twice and none is forgotten: of the candidates
/// that lead to the same files as candidate `i` exactly one is kept.
pub proof fn each_repository_is_kept_once(c: Seq<CandidateView>, i: int)
    requires
        0 <= i < c.len(),
        c[i].probe is Some,
    ensures
        exists|j: int| #[trigger]
            firsts(c).contains(j) && c[j].probe->Some_0.1 == c[i].probe->Some_0.1,
        forall|j: int, k: int| #[trigger]
            firsts(c).contains(j) && #[trigger] firsts(c).contains(k) && c[j].probe->Some_0.1
                == c[k].probe->Some_0.1 ==> j == k,
    decreases i,
{
    first_candidates_are_collected(c);
    if is_first(c, i) {
        assert(firsts(c).contains(i));
    } else {
        let j = choose|j: int|
            0 <= j < i && (#[trigger] c[j]).probe is Some && c[j].probe->Some_0.1
                == c[i].probe->Some_0.1;
        each_repository_is_kept_once(c, j);
    }
    assert forall|j: int, k: int| #[trigger]
        firsts(c).contains(j) && #[trigger] firsts(c).contains(k) && c[j].probe->Some_0.1
            == c[k].probe->Some_0.1 implies j == k by {
        let a = choose|a: int| 0 <= a < firsts(c).len() && firsts(c)[a] == j;
        let b = choose|b: int| 0 <= b < firsts(c).len() && firsts(c)[b] == k;
        assert(is_first(c, firsts(c)[a]) && is_first(c, firsts(c)[b]));
        if j < k {
            assert(c[j].probe is Some);
        } else if k < j {
            assert(c[k].probe is Some);
        }
    }
}

// ── laws ─────────────────────────────────────────────────────────────────────

/// Texts are ordered by the first character in which they differ; a text stands
/// before those that it is the beginning of.
pub proof fn the_first_difference_decides(
    common: Seq<char>,
    x: Seq<char>,
    y: Seq<char>,
)
    requires
        x.len() == 0 || y.len() == 0 || x[0] != y[0],
    ensures
        before(common + x, common + y) <==> y.len() > 0 && (x.len() == 0 || x[0] < y[0]),
    decreases common.len(),
{
    let a = common + x;
    let b = common + y;
    if common.len() == 0 {
        assert(a =~= x);
        assert(b =~= y);
    } else {
        the_first_difference_decides(common.drop_first(), x, y);
        assert(a[0] == common[0] && b[0] == common[0]);
        assert(a.drop_first() =~= common.drop_first() + x);
        assert(b.drop_first() =~= common.drop_first() + y);
    }
}

/// The candidates are judged one by one: a repository that was found is kept
/// under the candidate's path just if none of the candidates before led to the
/// same files, and a place without a repository is passed over.
pub proof fn candidates_are_judged_one_by_one(c: Seq<CandidateView>, x: CandidateView)
    ensures
        collected(Seq::<CandidateView>::empty()).len() == 0,
        collected(c.push(x)) == (match x.probe {
            Some((kind, dir)) => if forall|j: int|
                0 <= j < c.len() ==> match (#[trigger] c[j]).probe {
                    Some((_, d)) => d != dir,
                    None => true,
                } {
                collected(c).push(RepoView { path: x.path, kind })
            } else {
                collected(c)
            },
            None => collected(c),
        }),
{
    let all = c.push(x);
    let n = c.len() as int;
    assert(all.drop_last() =~= c);
    assert(all[n] == x);
    assert forall|j: int| 0 <= j < n implies #[trigger] all[j] == c[j] by {}
    if let Some((kind, dir)) = x.probe {
        if is_first(all, n) {
            assert forall|j: int| 0 <= j < n implies match (#[trigger] c[j]).probe {
                Some((_, d)) => d != dir,
                None => true,
            } by {
                assert(all[j] == c[j]);
            }
        } else {
            let j = choose|j: int|
                0 <= j < n && (#[trigger] all[j]).probe is Some && all[j].probe->Some_0.1
                    == all[n].probe->Some_0.1;
            assert(all[j] == c[j]);
        }
    }
}

/// The answer about a repository is read from its first two lines: "true" on
/// the first, but for white space, and nothing else, is a bare repository; the
/// second gives the place of its files.
pub proof fn probes_are_read_from_two_lines(
    o: Output,
    t: Seq<char>,
    pre: Seq<char>,
    word: Seq<char>,
    post: Seq<char>,
    before_dir: Seq<char>,
    dir: Seq<char>,
    after_dir: Seq<char>,
    more: Seq<Seq<char>>,
)
    requires
        o matches Output::Exited { success, stdout, .. } && success && stdout@
            == vstd::utf8::encode_utf8(t),
        text::line_texts(t) == seq![pre + word + post, before_dir + dir + after_dir] + more,
        text_laws::blank(pre),
        text_laws::blank(post),
        text_laws::blank(before_dir),
        text_laws::blank(after_dir),
        text_laws::tight(word),
        text_laws::tight(dir),
    ensures
        probed(o) == Some(
            (
                if word == "true"@ {
                    RepoKind::Bare
                } else {
                    RepoKind::Normal
                },
                dir,
            ),
        ),
{
    vstd::utf8::encode_utf8_valid_utf8(t);
    vstd::utf8::encode_utf8_decode_utf8(t);
    text_laws::trimming_takes_the_ends_off(pre, word, post);
    text_laws::trimming_takes_the_ends_off(before_dir, dir, after_dir);
    let l = text::line_texts(t);
    assert(l[0] == pre + word + post);
    assert(l[1] == before_dir + dir + after_dir);
}

/// Where Git fails, cannot be run, says too little, or writes what is no text,
/// there is no repository.
pub proof fn failed_probes_find_nothing(o: Output, t: Seq<char>)
    ensures
        match o {
            Output::Exited { success: false, .. } => probed(o) is None,
            Output::Exited { success: true, stdout, .. } => (!vstd::utf8::valid_utf8(stdout@) || (
            stdout@ == vstd::utf8::encode_utf8(t) && text::line_texts(t).len() < 2)) ==> probed(o)
                is None,
            Output::NotRun { .. } => probed(o) is None,
        },
{
    vstd::utf8::encode_utf8_valid_utf8(t);
    vstd::utf8::encode_utf8_decode_utf8(t);
}

} // verus!
