//! Linked worktrees, and which of them may go.
use vstd::prelude::*;
use vstd::string::*;

use crate::call::{CallView, GitCall, Profile};
use crate::text;
use crate::text::{is_one_of, lines, same, strip_prefix, trim};
use crate::text_laws;

verus! {

/// A worktree is idle when nothing happened in it for longer than this many
/// seconds: three days.
pub const IDLE_SECS: u64 = 259200;

/// One entry of a worktree listing.
#[derive(Debug)]
pub struct Worktree {
    pub path: String,
    /// The commit that is checked out.
    pub head: String,
    /// The branch that is checked out; empty if there is none.
    pub branch: String,
    pub locked: bool,
    /// Whether the directory is gone, so that only its record is left.
    pub prunable: bool,
}

/// The texts of a `Worktree`.
pub struct WorktreeView {
    pub path: Seq<char>,
    pub head: Seq<char>,
    pub branch: Seq<char>,
    pub locked: bool,
    pub prunable: bool,
}

impl View for Worktree {
    type V = WorktreeView;

    open spec fn view(&self) -> WorktreeView {
        WorktreeView {
            path: self.path@,
            head: self.head@,
            branch: self.branch@,
            locked: self.locked,
            prunable: self.prunable,
        }
    }
}

/// The views of a list of worktrees.
pub open spec fn worktree_views(v: Seq<Worktree>) -> Seq<WorktreeView> {
    v.map_values(|w: Worktree| w@)
}

/// The question for the worktrees of a repository.
pub open spec fn list_call(dir: Seq<char>) -> CallView {
    CallView { dir, args: seq!["worktree"@, "list"@, "--porcelain"@], profile: Profile::Hardened }
}

/// The question for the worktrees of a repository.
pub fn list_worktrees(dir: &str) -> (c: GitCall)
    ensures
        c@ == list_call(dir@),
{
    let args = ["worktree", "list", "--porcelain"];
    assert(text::slices(args@) =~= list_call(dir@).args);
    GitCall::new(dir, &args, Profile::Hardened)
}

/// The question whether commit `head` is contained in `mainline`.
pub open spec fn is_merged_call(dir: Seq<char>, head: Seq<char>, mainline: Seq<char>) -> CallView {
    CallView {
        dir,
        args: seq!["merge-base"@, "--is-ancestor"@, head, mainline],
        profile: Profile::Probe,
    }
}

/// The question whether commit `head` is contained in `mainline`.
pub fn is_merged(dir: &str, head: &str, mainline: &str) -> (c: GitCall)
    ensures
        c@ == is_merged_call(dir@, head@, mainline@),
{
    let args = ["merge-base", "--is-ancestor", head, mainline];
    assert(text::slices(args@) =~= is_merged_call(dir@, head@, mainline@).args);
    GitCall::new(dir, &args, Profile::Probe)
}

/// The command that removes the worktree at `path`. Git refuses it for a
/// worktree with changes that are not committed.
pub open spec fn remove_call(dir: Seq<char>, path: Seq<char>) -> CallView {
    CallView { dir, args: seq!["worktree"@, "remove"@, "--"@, path], profile: Profile::Hardened }
}

/// The command that removes the worktree at `path`.
pub fn remove_worktree(dir: &str, path: &str) -> (c: GitCall)
    ensures
        c@ == remove_call(dir@, path@),
{
    let args = ["worktree", "remove", "--", path];
    assert(text::slices(args@) =~= remove_call(dir@, path@).args);
    GitCall::new(dir, &args, Profile::Hardened)
}

// ── listing ──────────────────────────────────────────────────────────────────

/// Whether a line holds the attribute `name`, alone or with a remark.
pub open spec fn has_attribute(line: Seq<char>, name: Seq<char>) -> bool {
    line == name || text::after_prefix(line, name + " "@) is Some
}

fn is_attribute(line: &str, name: &str) -> (r: bool)
    ensures
        r == has_attribute(line@, name@),
{
    if same(line, name) {
        return true;
    }
    let mut p = name.to_string();
    p.append(" ");
    strip_prefix(line, p.as_str()).is_some()
}

/// What one more line says about worktree `w`.
pub open spec fn with_line(w: WorktreeView, line: Seq<char>) -> WorktreeView {
    if let Some(head) = text::after_prefix(line, "HEAD "@) {
        WorktreeView { head, ..w }
    } else if let Some(branch) = text::after_prefix(line, "branch refs/heads/"@) {
        WorktreeView { branch, ..w }
    } else if has_attribute(line, "locked"@) {
        WorktreeView { locked: true, ..w }
    } else if has_attribute(line, "prunable"@) {
        WorktreeView { prunable: true, ..w }
    } else {
        w
    }
}

/// A worktree of which only the place is known.
pub open spec fn worktree_at(path: Seq<char>) -> WorktreeView {
    WorktreeView {
        path,
        head: Seq::<char>::empty(),
        branch: Seq::<char>::empty(),
        locked: false,
        prunable: false,
    }
}

/// The worktrees that the lines of a listing describe. An entry begins with
/// the line that gives its place; the lines up to the next entry say more
/// about it.
pub open spec fn listed(ls: Seq<Seq<char>>) -> Seq<WorktreeView>
    decreases ls.len(),
{
    if ls.len() == 0 {
        Seq::<WorktreeView>::empty()
    } else {
        let before = listed(ls.drop_last());
        match text::after_prefix(ls.last(), "worktree "@) {
            Some(path) => before.push(worktree_at(path)),
            None => if before.len() == 0 {
                before
            } else {
                before.drop_last().push(with_line(before.last(), ls.last()))
            },
        }
    }
}

fn add_line(w: Worktree, line: &str) -> (r: Worktree)
    ensures
        r@ == with_line(w@, line@),
{
    match strip_prefix(line, "HEAD ") {
        Some(head) => Worktree { head, ..w },
        None => match strip_prefix(line, "branch refs/heads/") {
            Some(branch) => Worktree { branch, ..w },
            None => if is_attribute(line, "locked") {
                Worktree { locked: true, ..w }
            } else if is_attribute(line, "prunable") {
                Worktree { prunable: true, ..w }
            } else {
                w
            },
        },
    }
}

/// The worktrees that a listing describes.
pub fn read_worktrees(listing: &str) -> (r: Vec<Worktree>)
    ensures
        worktree_views(r@) == listed(text::line_texts(listing@)),
{
    let all = lines(listing);
    let ghost ls = text::line_texts(listing@);
    let mut r: Vec<Worktree> = Vec::new();
    assert(ls.take(0) =~= Seq::<Seq<char>>::empty());
    assert(worktree_views(r@) =~= listed(ls.take(0)));
    for i in 0..all.len()
        invariant
            text::texts(all@) == ls,
            worktree_views(r@) == listed(ls.take(i as int)),
    {
        let line = all[i].as_str();
        assert(ls[i as int] == line@);
        assert(ls.take(i + 1).drop_last() =~= ls.take(i as int));
        assert(ls.take(i + 1).last() == line@);
        let ghost r0 = worktree_views(r@);
        match strip_prefix(line, "worktree ") {
            Some(path) => {
                let w = Worktree {
                    path,
                    head: String::new(),
                    branch: String::new(),
                    locked: false,
                    prunable: false,
                };
                assert(w@ == worktree_at(path@));
                r.push(w);
                assert(worktree_views(r@) =~= r0.push(worktree_at(path@)));
            },
            None => {
                match r.pop() {
                    Some(w) => {
                        assert(r0.last() == w@);
                        assert(worktree_views(r@) =~= r0.drop_last());
                        let ghost w0 = w@;
                        let w2 = add_line(w, line);
                        r.push(w2);
                        assert(worktree_views(r@) =~= r0.drop_last().push(with_line(w0, line@)));
                    },
                    None => {
                        assert(r0.len() == 0);
                        assert(worktree_views(r@) =~= r0);
                    },
                }
            },
        }
    }
    assert(ls.take(all@.len() as int) =~= ls);
    r
}

// ── activity ─────────────────────────────────────────────────────────────────

/// The latest of some instants; zero if there are none.
pub open spec fn latest(changes: Seq<u64>) -> nat
    decreases changes.len(),
{
    if changes.len() == 0 {
        0
    } else {
        let before = latest(changes.drop_last());
        if changes.last() as nat > before {
            changes.last() as nat
        } else {
            before
        }
    }
}

/// How long before `now` the latest of the changes lies. It is zero if there
/// is no change to go by, or one that is later than `now`.
pub open spec fn idle_time(now: nat, changes: Seq<u64>) -> nat {
    if changes.len() == 0 || latest(changes) > now {
        0
    } else {
        (now - latest(changes)) as nat
    }
}

/// For how many seconds nothing happened, if it is `now` and things happened at
/// the instants `changes`. Where nothing is known, that is zero.
pub fn idle_for(now: u64, changes: &Vec<u64>) -> (r: u64)
    ensures
        r == idle_time(now as nat, changes@),
{
    if changes.len() == 0 {
        return 0;
    }
    let mut newest: u64 = 0;
    assert(changes@.take(0) =~= Seq::<u64>::empty());
    for i in 0..changes.len()
        invariant
            newest == latest(changes@.take(i as int)),
    {
        assert(changes@.take(i + 1).drop_last() =~= changes@.take(i as int));
        assert(changes@.take(i + 1).last() == changes@[i as int]);
        if changes[i] > newest {
            newest = changes[i];
        }
    }
    assert(changes@.take(changes@.len() as int) =~= changes@);
    if newest > now {
        0
    } else {
        now - newest
    }
}

/// The latest instant is one of the instants, and none is later.
pub proof fn latest_is_the_largest(changes: Seq<u64>)
    requires
        changes.len() > 0,
    ensures
        exists|i: int| 0 <= i < changes.len() && #[trigger] changes[i] == latest(changes),
        forall|i: int| 0 <= i < changes.len() ==> #[trigger] changes[i] <= latest(changes),
    decreases changes.len(),
{
    let d = changes.drop_last();
    let n = changes.len() - 1;
    assert(changes[n] == changes.last());
    if d.len() > 0 {
        latest_is_the_largest(d);
        let i = choose|i: int| 0 <= i < d.len() && #[trigger] d[i] == latest(d);
        assert(changes[i] == latest(d));
        assert forall|j: int| 0 <= j < changes.len() implies #[trigger] changes[j] <= latest(
            changes,
        ) by {
            if j < n {
                assert(d[j] == changes[j]);
            }
        }
    }
}

/// Where the link in a worktree says that Git keeps its records.
pub open spec fn linked_dir(link: Seq<char>) -> Option<Seq<char>> {
    match text::after_prefix(link, "gitdir:"@) {
        Some(t) => Some(text::trimmed(t)),
        None => None,
    }
}

/// Where the link in a worktree, given its text, says that Git keeps its
/// records.
pub fn read_link(link: &str) -> (r: Option<String>)
    ensures
        text::opt_text(r) == linked_dir(link@),
{
    match strip_prefix(link, "gitdir:") {
        Some(t) => Some(trim(t.as_str()).to_string()),
        None => None,
    }
}

// ── choice ───────────────────────────────────────────────────────────────────

/// Whether worktree `w` may be removed at all: it is not the directory that
/// the repository is cleaned in, is not locked, is still there, and does not
/// have a protected branch checked out.
pub open spec fn spare(w: WorktreeView, dir: Seq<char>, protected: Seq<Seq<char>>) -> bool {
    &&& w.path != dir
    &&& !w.locked
    &&& !w.prunable
    &&& !protected.contains(w.branch)
}

/// The worktrees that may be removed, of those listed. The first one listed is
/// the main worktree and stays.
pub open spec fn spares(all: Seq<WorktreeView>, dir: Seq<char>, protected: Seq<Seq<char>>) -> Seq<
    WorktreeView,
> {
    if all.len() == 0 {
        all
    } else {
        all.skip(1).filter(|w: WorktreeView| spare(w, dir, protected))
    }
}

/// The worktrees that may be removed, from a listing.
pub fn spare_worktrees(listing: &str, dir: &str, protected: &Vec<String>) -> (r: Vec<Worktree>)
    ensures
        worktree_views(r@) == spares(
            listed(text::line_texts(listing@)),
            dir@,
            text::texts(protected@),
        ),
{
    let mut all = read_worktrees(listing);
    let ghost views = worktree_views(all@);
    let ghost p = text::texts(protected@);
    let mut r: Vec<Worktree> = Vec::new();
    if all.len() == 0 {
        assert(worktree_views(r@) =~= views);
        return r;
    }
    let ghost rest = views.skip(1);
    let ghost keep = |w: WorktreeView| spare(w, dir@, p);
    assert(rest.take(0) =~= Seq::<WorktreeView>::empty());
    assert(worktree_views(r@) =~= rest.take(0).filter(keep));
    all.remove(0);
    assert(worktree_views(all@) =~= rest);
    let n: usize = all.len();
    assert(rest.skip(0) =~= rest);
    for i in 0..n
        invariant
            rest.len() == n,
            worktree_views(all@) == rest.skip(i as int),
            p == text::texts(protected@),
            keep == (|w: WorktreeView| spare(w, dir@, p)),
            worktree_views(r@) == rest.take(i as int).filter(keep),
    {
        let ghost left = worktree_views(all@);
        assert(left.len() == all@.len());
        let w = all.remove(0);
        assert(left[0] == w@);
        assert(worktree_views(all@) =~= left.drop_first());
        assert(left.drop_first() =~= rest.skip(i + 1));
        assert(rest[i as int] == w@);
        assert(rest.take(i + 1) =~= rest.take(i as int).push(w@));
        proof {
            rest.take(i as int).lemma_filter_push(w@, keep);
        }
        if !same(w.path.as_str(), dir) && !w.locked && !w.prunable && !is_one_of(
            protected.as_slice(),
            w.branch.as_str(),
        ) {
            let ghost r0 = worktree_views(r@);
            let ghost w0 = w@;
            r.push(w);
            assert(worktree_views(r@) =~= r0.push(w0));
        }
    }
    assert(rest.take(n as int) =~= rest);
    r
}

/// The main worktree, a locked one, and one with a protected branch are never
/// up for removal.
pub proof fn kept_worktrees(all: Seq<WorktreeView>, dir: Seq<char>, protected: Seq<Seq<char>>, i: int)
    requires
        0 <= i < spares(all, dir, protected).len(),
    ensures
        spare(spares(all, dir, protected)[i], dir, protected),
        exists|j: int| 1 <= j < all.len() && #[trigger] all[j] == spares(all, dir, protected)[i],
{
    let rest = all.skip(1);
    let keep = |w: WorktreeView| spare(w, dir, protected);
    let f = rest.filter(keep);
    rest.lemma_filter_pred(keep, i);
    assert(f.contains(f[i]));
    rest.lemma_filter_contains_rev(keep, f[i]);
    let j = choose|j: int| 0 <= j < rest.len() && rest[j] == f[i];
    assert(all[j + 1] == f[i]);
}

/// The worktrees that may go are found one by one, in the order of the listing.
/// The first one listed stays; another may go just if it is not the directory
/// that the repository is cleaned in, is not locked, is still there, and has
/// none of the protected branches checked out.
pub proof fn worktrees_are_judged_one_by_one(
    all: Seq<WorktreeView>,
    w: WorktreeView,
    dir: Seq<char>,
    protected: Seq<Seq<char>>,
)
    ensures
        spares(Seq::<WorktreeView>::empty(), dir, protected).len() == 0,
        spares(seq![w], dir, protected).len() == 0,
        all.len() > 0 ==> spares(all.push(w), dir, protected) == (if w.path != dir && !w.locked
            && !w.prunable && (forall|i: int|
            0 <= i < protected.len() ==> #[trigger] protected[i] != w.branch) {
            spares(all, dir, protected).push(w)
        } else {
            spares(all, dir, protected)
        }),
{
    let keep = |x: WorktreeView| spare(x, dir, protected);
    let none = Seq::<WorktreeView>::empty();
    assert(seq![w].skip(1) =~= none);
    none.lemma_filter_len(keep);
    if all.len() > 0 {
        assert(all.push(w).skip(1) =~= all.skip(1).push(w));
        all.skip(1).lemma_filter_push(w, keep);
        if protected.contains(w.branch) {
            let i = choose|i: int| 0 <= i < protected.len() && protected[i] == w.branch;
            assert(protected[i] == w.branch);
        } else {
            assert forall|i: int| 0 <= i < protected.len() implies #[trigger] protected[i]
                != w.branch by {
                assert(protected.contains(protected[i]));
            }
        }
    }
}

proof fn lemma_line_heads()
    ensures
        "worktree "@.len() == 9 && "worktree "@[0] == 'w',
        "HEAD "@.len() == 5 && "HEAD "@[0] == 'H',
        "branch refs/heads/"@.len() == 18 && "branch refs/heads/"@[0] == 'b',
        "locked"@.len() == 6 && "locked"@[0] == 'l',
        "prunable"@.len() == 8 && "prunable"@[0] == 'p',
{
    reveal_strlit("worktree ");
    reveal_strlit("HEAD ");
    reveal_strlit("branch refs/heads/");
    reveal_strlit("locked");
    reveal_strlit("prunable");
}

proof fn lemma_no_prefix(line: Seq<char>, p: Seq<char>)
    requires
        p.len() > 0,
        line.len() == 0 || line[0] != p[0],
    ensures
        text::after_prefix(line, p) is None,
{
    if let Some(r) = text::after_prefix(line, p) {
        text_laws::prefixes_are_taken_off(line, p, r);
        assert((p + r)[0] == p[0]);
    }
}

/// An entry of a listing begins with the line that gives its place, and nothing
/// more is known of it by that line.
pub proof fn entries_begin_with_their_place(ls: Seq<Seq<char>>, path: Seq<char>)
    ensures
        listed(Seq::<Seq<char>>::empty()).len() == 0,
        listed(ls.push("worktree "@ + path)) == listed(ls).push(
            WorktreeView {
                path,
                head: Seq::<char>::empty(),
                branch: Seq::<char>::empty(),
                locked: false,
                prunable: false,
            },
        ),
{
    assert(ls.push("worktree "@ + path).drop_last() =~= ls);
    text_laws::prefixes_are_taken_off("worktree "@ + path, "worktree "@, path);
}

proof fn lemma_line_of_entry(ls: Seq<Seq<char>>, line: Seq<char>)
    requires
        line.len() == 0 || line[0] != 'w',
    ensures
        listed(ls.push(line)) == (if listed(ls).len() == 0 {
            listed(ls)
        } else {
            listed(ls).drop_last().push(with_line(listed(ls).last(), line))
        }),
{
    assert(ls.push(line).drop_last() =~= ls);
    lemma_line_heads();
    lemma_no_prefix(line, "worktree "@);
}

/// The lines behind it say what is checked out there: the commit and the
/// branch. They are about the latest entry and leave the others as they are.
pub proof fn entries_tell_what_is_checked_out(ls: Seq<Seq<char>>, x: Seq<char>)
    requires
        listed(ls).len() > 0,
    ensures
        listed(ls.push("HEAD "@ + x)) == listed(ls).drop_last().push(
            WorktreeView { head: x, ..listed(ls).last() },
        ),
        listed(ls.push("branch refs/heads/"@ + x)) == listed(ls).drop_last().push(
            WorktreeView { branch: x, ..listed(ls).last() },
        ),
{
    lemma_line_heads();
    let h = "HEAD "@ + x;
    let b = "branch refs/heads/"@ + x;
    assert(h[0] == 'H');
    assert(b[0] == 'b');
    lemma_line_of_entry(ls, h);
    lemma_line_of_entry(ls, b);
    text_laws::prefixes_are_taken_off(h, "HEAD "@, x);
    text_laws::prefixes_are_taken_off(b, "branch refs/heads/"@, x);
    lemma_no_prefix(b, "HEAD "@);
}

/// A worktree is locked, or prunable, just if a line says so, with or without a
/// reason.
pub proof fn entries_tell_what_keeps_them(ls: Seq<Seq<char>>, reason: Seq<char>)
    requires
        listed(ls).len() > 0,
    ensures
        listed(ls.push("locked"@)) == listed(ls).drop_last().push(
            WorktreeView { locked: true, ..listed(ls).last() },
        ),
        listed(ls.push("locked"@ + " "@ + reason)) == listed(ls).drop_last().push(
            WorktreeView { locked: true, ..listed(ls).last() },
        ),
        listed(ls.push("prunable"@)) == listed(ls).drop_last().push(
            WorktreeView { prunable: true, ..listed(ls).last() },
        ),
        listed(ls.push("prunable"@ + " "@ + reason)) == listed(ls).drop_last().push(
            WorktreeView { prunable: true, ..listed(ls).last() },
        ),
{
    lemma_line_heads();
    lemma_kept_by(ls, "locked"@);
    lemma_kept_by(ls, "locked"@ + " "@ + reason);
    lemma_kept_by(ls, "prunable"@);
    lemma_kept_by(ls, "prunable"@ + " "@ + reason);
    text_laws::prefixes_are_taken_off("locked"@ + " "@ + reason, "locked"@ + " "@, reason);
    text_laws::prefixes_are_taken_off("prunable"@ + " "@ + reason, "prunable"@ + " "@, reason);
    assert(("locked"@ + " "@)[0] == 'l');
    lemma_no_prefix("prunable"@, "locked"@ + " "@);
    lemma_no_prefix("prunable"@ + " "@ + reason, "locked"@ + " "@);
}

proof fn lemma_kept_by(ls: Seq<Seq<char>>, line: Seq<char>)
    requires
        listed(ls).len() > 0,
        line.len() > 0,
        line[0] == 'l' || line[0] == 'p',
    ensures
        listed(ls.push(line)) == listed(ls).drop_last().push(
            (if has_attribute(line, "locked"@) {
                WorktreeView { locked: true, ..listed(ls).last() }
            } else if has_attribute(line, "prunable"@) {
                WorktreeView { prunable: true, ..listed(ls).last() }
            } else {
                listed(ls).last()
            }),
        ),
{
    lemma_line_heads();
    lemma_line_of_entry(ls, line);
    lemma_no_prefix(line, "HEAD "@);
    lemma_no_prefix(line, "branch refs/heads/"@);
}

/// Any other line, and any line before the first entry, says nothing.
pub proof fn other_lines_say_nothing(ls: Seq<Seq<char>>, line: Seq<char>)
    requires
        forall|r: Seq<char>| line != #[trigger] ("worktree "@ + r),
        listed(ls).len() == 0 || (forall|r: Seq<char>| line != #[trigger] ("HEAD "@ + r))
            && (forall|r: Seq<char>| line != #[trigger] ("branch refs/heads/"@ + r)) && (line
            != "locked"@) && (forall|r: Seq<char>| line != #[trigger] ("locked"@ + " "@ + r))
            && (line != "prunable"@) && (forall|r: Seq<char>|
            line != #[trigger] ("prunable"@ + " "@ + r)),
    ensures
        listed(ls.push(line)) == listed(ls),
{
    assert(ls.push(line).drop_last() =~= ls);
    if let Some(r) = text::after_prefix(line, "worktree "@) {
        text_laws::prefixes_are_taken_off(line, "worktree "@, r);
        assert(line == "worktree "@ + r);
    }
    if listed(ls).len() > 0 {
        if let Some(r) = text::after_prefix(line, "HEAD "@) {
            text_laws::prefixes_are_taken_off(line, "HEAD "@, r);
            assert(line == "HEAD "@ + r);
        }
        if let Some(r) = text::after_prefix(line, "branch refs/heads/"@) {
            text_laws::prefixes_are_taken_off(line, "branch refs/heads/"@, r);
            assert(line == "branch refs/heads/"@ + r);
        }
        if let Some(r) = text::after_prefix(line, "locked"@ + " "@) {
            text_laws::prefixes_are_taken_off(line, "locked"@ + " "@, r);
            assert(line == "locked"@ + " "@ + r);
        }
        if let Some(r) = text::after_prefix(line, "prunable"@ + " "@) {
            text_laws::prefixes_are_taken_off(line, "prunable"@ + " "@, r);
            assert(line == "prunable"@ + " "@ + r);
        }
        let l = listed(ls);
        assert(l.drop_last().push(l.last()) =~= l);
    }
}

/// A worktree has been idle since the latest change in it. Where no change is
/// known, or one lies ahead, it is not idle.
pub proof fn idle_since_the_latest_change(now: nat, changes: Seq<u64>, i: int)
    ensures
        changes.len() == 0 ==> idle_time(now, changes) == 0,
        0 <= i < changes.len() && changes[i] > now ==> idle_time(now, changes) == 0,
        0 <= i < changes.len() && changes[i] <= now && (forall|j: int|
            0 <= j < changes.len() ==> #[trigger] changes[j] <= changes[i]) ==> idle_time(
            now,
            changes,
        ) == now - changes[i],
{
    if changes.len() > 0 {
        latest_is_the_largest(changes);
        let k = choose|k: int| 0 <= k < changes.len() && #[trigger] changes[k] == latest(changes);
        assert(changes[k] == latest(changes));
    }
}

/// The link in a worktree gives the place behind "gitdir:", without the white
/// space around it. A text that does not begin so is no link.
pub proof fn links_give_a_place(pre: Seq<char>, place: Seq<char>, post: Seq<char>, t: Seq<char>)
    requires
        text_laws::blank(pre),
        text_laws::blank(post),
        text_laws::tight(place),
    ensures
        linked_dir("gitdir:"@ + (pre + place + post)) == Some(place),
        (forall|r: Seq<char>| t != #[trigger] ("gitdir:"@ + r)) ==> linked_dir(t) is None,
{
    let rest = pre + place + post;
    text_laws::trimming_takes_the_ends_off(pre, place, post);
    text_laws::prefixes_are_taken_off("gitdir:"@ + rest, "gitdir:"@, rest);
    if let Some(r) = text::after_prefix(t, "gitdir:"@) {
        text_laws::prefixes_are_taken_off(t, "gitdir:"@, r);
        assert(t == "gitdir:"@ + r);
    }
}

} // verus!
