//! The mainline branch, and the branches that are merged into it.
use vstd::prelude::*;
use vstd::string::*;

use crate::call;
use crate::call::{CallView, GitCall, Output, Profile};
use crate::text;
use crate::text::{chars_of, is_one_of, lines, same, starts_with_char, trim, words};
use crate::text_laws;

verus! {

// ── mainline ─────────────────────────────────────────────────────────────────

/// The question for the default branch of `origin`.
pub open spec fn origin_head_call(dir: Seq<char>) -> CallView {
    CallView {
        dir,
        args: seq!["symbolic-ref"@, "--short"@, "refs/remotes/origin/HEAD"@],
        profile: Profile::Probe,
    }
}

/// The question for the default branch of `origin`.
pub fn origin_head(dir: &str) -> (c: GitCall)
    ensures
        c@ == origin_head_call(dir@),
{
    let args = ["symbolic-ref", "--short", "refs/remotes/origin/HEAD"];
    assert(text::slices(args@) =~= origin_head_call(dir@).args);
    GitCall::new(dir, &args, Profile::Probe)
}

/// What follows the first slash of `s`; all of `s` if there is none.
pub open spec fn after_slash(s: Seq<char>) -> Seq<char> {
    if exists|i: int| 0 <= i < s.len() && s[i] == '/' {
        let i = choose|i: int|
            0 <= i < s.len() && s[i] == '/' && forall|j: int| 0 <= j < i ==> s[j] != '/';
        s.skip(i + 1)
    } else {
        s
    }
}

fn tail_after_slash(s: &str) -> (r: &str)
    ensures
        r@ == after_slash(s@),
{
    let cs = chars_of(s);
    let n: usize = cs.len();
    for k in 0..n
        invariant
            n == cs@.len(),
            cs@ == s@,
            forall|j: int| 0 <= j < k ==> s@[j] != '/',
    {
        if cs[k] == '/' {
            assert(s@.subrange(k + 1, n as int) =~= s@.skip(k + 1));
            proof {
                assert(s@[k as int] == '/');
                let i = choose|i: int|
                    0 <= i < s@.len() && s@[i] == '/' && forall|j: int| 0 <= j < i ==> s@[j] != '/';
                assert(i == k);
            }
            return s.substring_char(k + 1, n);
        }
    }
    s
}

/// The branch that the text of an answer to `origin_head` names. A name that
/// looks like an option is none.
pub open spec fn branch_named(t: Seq<char>) -> Option<Seq<char>> {
    let b = after_slash(text::trimmed(t));
    if b.len() > 0 && !text::begins_with(b, '-') {
        Some(b)
    } else {
        None
    }
}

/// The branch that the text of an answer to `origin_head` names, if it names
/// one.
pub fn read_branch_name(t: &str) -> (r: Option<String>)
    ensures
        text::opt_text(r) == branch_named(t@),
{
    let b = tail_after_slash(trim(t));
    if !b.is_empty() && !starts_with_char(b, '-') {
        Some(b.to_string())
    } else {
        None
    }
}

/// The branch that the answer to `origin_head` names.
pub open spec fn origin_branch(o: Output) -> Option<Seq<char>> {
    match call::printed(o) {
        Some(t) => branch_named(t),
        None => None,
    }
}

/// The branch that the answer to `origin_head` names, if it names one.
pub fn read_origin_head(o: &Output) -> (r: Option<String>)
    ensures
        text::opt_text(r) == origin_branch(*o),
        text::opt_text(r) == (match *o {
            Output::Exited { success: true, stdout, .. } => branch_named(text::decoded(stdout@)),
            _ => None,
        }),
{
    match o.text() {
        Some(t) => read_branch_name(t.as_str()),
        None => None,
    }
}

/// The question whether there is a local branch `name`. The name is fully
/// qualified, so that a tag cannot stand in for the branch.
pub open spec fn branch_exists_call(dir: Seq<char>, name: Seq<char>) -> CallView {
    CallView {
        dir,
        args: seq!["rev-parse"@, "--verify"@, "--quiet"@, "refs/heads/"@ + name],
        profile: Profile::Probe,
    }
}

/// The question whether there is a local branch `name`.
pub fn local_branch_exists(dir: &str, name: &str) -> (c: GitCall)
    ensures
        c@ == branch_exists_call(dir@, name@),
        c@ == (CallView {
            dir: dir@,
            args: seq!["rev-parse"@, "--verify"@, "--quiet"@, "refs/heads/"@ + name@],
            profile: Profile::Probe,
        }),
{
    let mut refname = "refs/heads/".to_string();
    refname.append(name);
    let mut args = words(&["rev-parse", "--verify", "--quiet"]);
    let ghost fixed = text::texts(args@);
    let ghost r = refname@;
    assert(fixed =~= seq!["rev-parse"@, "--verify"@, "--quiet"@]);
    args.push(refname);
    assert(text::texts(args@) =~= fixed.push(r));
    assert(text::texts(args@) =~= branch_exists_call(dir@, name@).args);
    GitCall { dir: dir.to_string(), args, profile: Profile::Probe }
}

/// The mainline branch: the default branch of `origin`, or else "main", or
/// else "master", of the local branches. `head` is the answer to
/// `origin_head`; `main` and `master` are those to `local_branch_exists`.
pub open spec fn mainline(head: Output, main: Output, master: Output) -> Option<Seq<char>> {
    match origin_branch(head) {
        Some(b) => Some(b),
        None => if call::succeeded(main) {
            Some("main"@)
        } else if call::succeeded(master) {
            Some("master"@)
        } else {
            None
        },
    }
}

/// The mainline branch that the three answers give, if they give one.
pub fn detect_mainline(head: &Output, main: &Output, master: &Output) -> (r: Option<String>)
    ensures
        text::opt_text(r) == mainline(*head, *main, *master),
{
    match read_origin_head(head) {
        Some(b) => Some(b),
        None => if main.is_success() {
            Some("main".to_string())
        } else if master.is_success() {
            Some("master".to_string())
        } else {
            None
        },
    }
}

/// A mainline branch is never empty and never looks like an option.
pub proof fn mainline_is_a_plain_name(head: Output, main: Output, master: Output)
    ensures
        mainline(head, main, master) matches Some(b) ==> b.len() > 0 && !text::begins_with(b, '-'),
{
    reveal_strlit("main");
    reveal_strlit("master");
}

// ── merged branches ──────────────────────────────────────────────────────────

/// The question for the branches that are merged into `mainline`.
pub open spec fn merged_call(dir: Seq<char>, mainline: Seq<char>) -> CallView {
    CallView { dir, args: seq!["branch"@, "--merged"@, mainline], profile: Profile::Hardened }
}

/// The question for the branches that are merged into `mainline`.
pub fn merged_branches(dir: &str, mainline: &str) -> (c: GitCall)
    ensures
        c@ == merged_call(dir@, mainline@),
{
    let args = ["branch", "--merged", mainline];
    assert(text::slices(args@) =~= merged_call(dir@, mainline@).args);
    GitCall::new(dir, &args, Profile::Hardened)
}

/// Whether a line of a branch listing is for a branch that is not checked out:
/// an asterisk marks the current branch, a plus sign one that is checked out
/// in another worktree.
pub open spec fn unmarked(line: Seq<char>) -> bool {
    !text::begins_with(line, '*') && !text::begins_with(line, '+')
}

/// Whether branch `b` may be deleted: it is a name and not a remark in
/// parentheses, does not look like an option, and is neither the mainline nor
/// protected.
pub open spec fn deletable(b: Seq<char>, mainline: Seq<char>, protected: Seq<Seq<char>>) -> bool {
    &&& b.len() > 0
    &&& !text::begins_with(b, '(')
    &&& !text::begins_with(b, '-')
    &&& b != mainline
    &&& !protected.contains(b)
}

/// The branches to delete, from the listing of those merged into `mainline`.
pub open spec fn doomed(listing: Seq<char>, mainline: Seq<char>, protected: Seq<Seq<char>>) -> Seq<
    Seq<char>,
> {
    text::line_texts(listing).filter(|l: Seq<char>| unmarked(l)).map_values(
        |l: Seq<char>| text::trimmed(l),
    ).filter(|b: Seq<char>| deletable(b, mainline, protected))
}

/// The branches to delete, from the listing of those merged into `mainline`.
pub fn doomed_branches(listing: &str, mainline: &str, protected: &Vec<String>) -> (r: Vec<String>)
    ensures
        text::texts(r@) == doomed(listing@, mainline@, text::texts(protected@)),
{
    let all = lines(listing);
    let ghost ls = text::line_texts(listing@);
    let ghost p = text::texts(protected@);
    let ghost open_ = |l: Seq<char>| unmarked(l);
    let ghost tr = |l: Seq<char>| text::trimmed(l);
    let ghost del = |b: Seq<char>| deletable(b, mainline@, p);
    let mut r: Vec<String> = Vec::new();
    assert(ls.take(0) =~= Seq::<Seq<char>>::empty());
    assert(ls.take(0).filter(open_) =~= Seq::<Seq<char>>::empty());
    assert(ls.take(0).filter(open_).map_values(tr) =~= Seq::<Seq<char>>::empty());
    assert(text::texts(r@) =~= ls.take(0).filter(open_).map_values(tr).filter(del));
    for i in 0..all.len()
        invariant
            text::texts(all@) == ls,
            p == text::texts(protected@),
            open_ == (|l: Seq<char>| unmarked(l)),
            tr == (|l: Seq<char>| text::trimmed(l)),
            del == (|b: Seq<char>| deletable(b, mainline@, p)),
            text::texts(r@) == ls.take(i as int).filter(open_).map_values(tr).filter(del),
    {
        let l = all[i].as_str();
        assert(ls[i as int] == l@);
        let ghost part = ls.take(i as int);
        assert(ls.take(i + 1) =~= part.push(l@));
        proof {
            part.lemma_filter_push(l@, open_);
        }
        if !starts_with_char(l, '*') && !starts_with_char(l, '+') {
            let b = trim(l);
            proof {
                let f = part.filter(open_);
                assert(f.push(l@).map_values(tr) =~= f.map_values(tr).push(b@));
                f.map_values(tr).lemma_filter_push(b@, del);
            }
            if !b.is_empty() && !starts_with_char(b, '(') && !starts_with_char(b, '-') && !same(
                b,
                mainline,
            ) && !is_one_of(protected.as_slice(), b) {
                let ghost r0 = text::texts(r@);
                r.push(b.to_string());
                assert(text::texts(r@) =~= r0.push(b@));
            }
        }
    }
    assert(ls.take(all@.len() as int) =~= ls);
    r
}

/// The command that deletes the branches `names`. They stand behind "--", so
/// that none can be taken for an option.
pub open spec fn delete_call(dir: Seq<char>, names: Seq<Seq<char>>) -> CallView {
    CallView { dir, args: seq!["branch"@, "-d"@, "--"@] + names, profile: Profile::Hardened }
}

/// The command that deletes the branches `names`.
pub fn delete_branches(dir: &str, names: Vec<String>) -> (c: GitCall)
    ensures
        c@ == delete_call(dir@, text::texts(names@)),
        c@ == (CallView {
            dir: dir@,
            args: seq!["branch"@, "-d"@, "--"@] + text::texts(names@),
            profile: Profile::Hardened,
        }),
{
    let mut args = words(&["branch", "-d", "--"]);
    let mut names = names;
    let ghost n = text::texts(names@);
    let ghost fixed = text::texts(args@);
    assert(fixed =~= seq!["branch"@, "-d"@, "--"@]);
    args.append(&mut names);
    assert(text::texts(args@) =~= fixed + n);
    assert(text::texts(args@) =~= delete_call(dir@, n).args);
    GitCall { dir: dir.to_string(), args, profile: Profile::Hardened }
}

/// What is deleted was listed as merged, is not checked out anywhere, is
/// neither the mainline nor protected, and cannot be taken for an option; and
/// every listed branch of which that is true is deleted.
pub proof fn only_spare_branches_are_deleted(
    listing: Seq<char>,
    mainline: Seq<char>,
    protected: Seq<Seq<char>>,
    b: Seq<char>,
)
    ensures
        doomed(listing, mainline, protected).contains(b) <==> {
            &&& deletable(b, mainline, protected)
            &&& exists|i: int|
                0 <= i < text::line_texts(listing).len() && unmarked(
                    #[trigger] text::line_texts(listing)[i],
                ) && text::trimmed(text::line_texts(listing)[i]) == b
        },
{
    let ls = text::line_texts(listing);
    let open_ = |l: Seq<char>| unmarked(l);
    let tr = |l: Seq<char>| text::trimmed(l);
    let del = |x: Seq<char>| deletable(x, mainline, protected);
    let f = ls.filter(open_);
    let m = f.map_values(tr);
    let d = m.filter(del);
    if d.contains(b) {
        let k = choose|k: int| 0 <= k < d.len() && d[k] == b;
        m.lemma_filter_pred(del, k);
        m.lemma_filter_contains_rev(del, b);
        let j = choose|j: int| 0 <= j < m.len() && m[j] == b;
        assert(f[j] == f[j]);
        ls.lemma_filter_pred(open_, j);
        assert(f.contains(f[j]));
        ls.lemma_filter_contains_rev(open_, f[j]);
        let i = choose|i: int| 0 <= i < ls.len() && ls[i] == f[j];
        assert(unmarked(ls[i]) && text::trimmed(ls[i]) == b);
    }
    if deletable(b, mainline, protected) && exists|i: int|
        0 <= i < ls.len() && unmarked(#[trigger] ls[i]) && text::trimmed(ls[i]) == b {
        let i = choose|i: int|
            0 <= i < ls.len() && unmarked(#[trigger] ls[i]) && text::trimmed(ls[i]) == b;
        assert(open_(ls[i]));
        ls.lemma_filter_contains(open_, i);
        let j = choose|j: int| 0 <= j < f.len() && f[j] == ls[i];
        assert(m[j] == b);
        assert(del(m[j]));
        m.lemma_filter_contains(del, j);
    }
}

/// Whether `b` is a name that a branch listing can give: not empty, without
/// white space around it, not a remark in parentheses, and not an option.
pub open spec fn plain_name(b: Seq<char>) -> bool {
    b.len() > 0 && text_laws::tight(b) && b[0] != '(' && b[0] != '-'
}

/// None of the protected branches is deleted, wherever in the list it stands,
/// and the mainline is not.
pub proof fn protected_branches_are_kept(
    listing: Seq<char>,
    mainline: Seq<char>,
    protected: Seq<Seq<char>>,
    i: int,
)
    requires
        0 <= i < protected.len(),
    ensures
        !doomed(listing, mainline, protected).contains(protected[i]),
        !doomed(listing, mainline, protected).contains(mainline),
{
    only_spare_branches_are_deleted(listing, mainline, protected, protected[i]);
    only_spare_branches_are_deleted(listing, mainline, protected, mainline);
    assert(protected.contains(protected[i]));
}

/// The mainline is not deleted, whether or not anything is protected.
pub proof fn the_mainline_is_kept(
    listing: Seq<char>,
    mainline: Seq<char>,
    protected: Seq<Seq<char>>,
)
    ensures
        !doomed(listing, mainline, protected).contains(mainline),
{
    only_spare_branches_are_deleted(listing, mainline, protected, mainline);
}

/// A merged branch that is listed without a mark is deleted, if it is neither
/// the mainline nor any of the protected ones.
pub proof fn merged_branches_are_deleted(
    listing: Seq<char>,
    mainline: Seq<char>,
    protected: Seq<Seq<char>>,
    pre: Seq<char>,
    b: Seq<char>,
    post: Seq<char>,
    at: int,
)
    requires
        0 <= at < text::line_texts(listing).len(),
        text::line_texts(listing)[at] == pre + b + post,
        text_laws::blank(pre),
        text_laws::blank(post),
        plain_name(b),
        pre.len() > 0 || (b[0] != '*' && b[0] != '+'),
        b != mainline,
        forall|i: int| 0 <= i < protected.len() ==> #[trigger] protected[i] != b,
    ensures
        doomed(listing, mainline, protected).contains(b),
{
    let line = text::line_texts(listing)[at];
    text_laws::trimming_takes_the_ends_off(pre, b, post);
    if pre.len() > 0 {
        assert(line[0] == pre[0]);
        assert(text::white_space(pre[0]));
    } else {
        assert(line[0] == b[0]);
    }
    assert(unmarked(line));
    only_spare_branches_are_deleted(listing, mainline, protected, b);
}

/// What is deleted is a plain name that a line without a mark gives.
pub proof fn deleted_branches_were_listed(
    listing: Seq<char>,
    mainline: Seq<char>,
    protected: Seq<Seq<char>>,
    b: Seq<char>,
) -> (at: (int, Seq<char>, Seq<char>))
    requires
        doomed(listing, mainline, protected).contains(b),
    ensures
        0 <= at.0 < text::line_texts(listing).len(),
        text::line_texts(listing)[at.0] == at.1 + b + at.2,
        text_laws::blank(at.1),
        text_laws::blank(at.2),
        plain_name(b),
        at.1.len() > 0 || (b[0] != '*' && b[0] != '+'),
        b != mainline,
        forall|i: int| 0 <= i < protected.len() ==> #[trigger] protected[i] != b,
{
    only_spare_branches_are_deleted(listing, mainline, protected, b);
    let i = choose|i: int|
        0 <= i < text::line_texts(listing).len() && unmarked(
            #[trigger] text::line_texts(listing)[i],
        ) && text::trimmed(text::line_texts(listing)[i]) == b;
    let line = text::line_texts(listing)[i];
    let ends = text_laws::every_text_has_a_middle(line);
    if ends.0.len() == 0 {
        assert(line[0] == b[0]);
    }
    assert forall|j: int| 0 <= j < protected.len() implies #[trigger] protected[j] != b by {
        assert(protected.contains(protected[j]));
    }
    (i, ends.0, ends.1)
}

/// One more line in a listing adds the branch that it gives behind the others,
/// or none: branches are deleted in the order in which they are listed, once
/// for each line.
pub proof fn lines_are_taken_in_order(
    before: Seq<char>,
    after: Seq<char>,
    pre: Seq<char>,
    b: Seq<char>,
    post: Seq<char>,
    mainline: Seq<char>,
    protected: Seq<Seq<char>>,
)
    requires
        text::line_texts(after) == text::line_texts(before).push(pre + b + post),
        text_laws::blank(pre),
        text_laws::blank(post),
        text_laws::tight(b),
    ensures
        doomed(after, mainline, protected) == (if plain_name(b) && (pre.len() > 0 || (b[0] != '*'
            && b[0] != '+')) && b != mainline && forall|i: int|
            0 <= i < protected.len() ==> #[trigger] protected[i] != b {
            doomed(before, mainline, protected).push(b)
        } else {
            doomed(before, mainline, protected)
        }),
{
    let line = pre + b + post;
    let ls = text::line_texts(before);
    let open_ = |l: Seq<char>| unmarked(l);
    let tr = |l: Seq<char>| text::trimmed(l);
    let del = |x: Seq<char>| deletable(x, mainline, protected);
    let f = ls.filter(open_);
    text_laws::trimming_takes_the_ends_off(pre, b, post);
    ls.lemma_filter_push(line, open_);
    assert(f.push(line).map_values(tr) =~= f.map_values(tr).push(b));
    f.map_values(tr).lemma_filter_push(b, del);
    if pre.len() > 0 {
        assert(line[0] == pre[0]);
        assert(text::white_space(pre[0]));
    } else if b.len() > 0 {
        assert(line[0] == b[0]);
    }
    if protected.contains(b) {
        let i = choose|i: int| 0 <= i < protected.len() && protected[i] == b;
        assert(protected[i] == b);
    } else {
        assert forall|i: int| 0 <= i < protected.len() implies #[trigger] protected[i] != b by {
            assert(protected.contains(protected[i]));
        }
    }
}

/// No lines, no branches.
pub proof fn nothing_listed_is_nothing_deleted(
    listing: Seq<char>,
    mainline: Seq<char>,
    protected: Seq<Seq<char>>,
)
    requires
        text::line_texts(listing).len() == 0,
    ensures
        doomed(listing, mainline, protected).len() == 0,
{
    let d = doomed(listing, mainline, protected);
    if d.len() > 0 {
        assert(d.contains(d[0]));
        only_spare_branches_are_deleted(listing, mainline, protected, d[0]);
    }
}

// ── reading the mainline ─────────────────────────────────────────────────────

/// The answer "origin/main" names the branch "main": the name is what follows
/// the first slash, and may hold slashes itself. White space around the answer
/// does not count.
pub proof fn the_remote_is_taken_off(
    pre: Seq<char>,
    remote: Seq<char>,
    b: Seq<char>,
    post: Seq<char>,
)
    requires
        text_laws::blank(pre),
        text_laws::blank(post),
        text_laws::tight(remote + seq!['/'] + b),
        text_laws::lacks(remote, '/'),
    ensures
        branch_named(pre + (remote + seq!['/'] + b) + post) == (if b.len() > 0 && b[0] != '-' {
            Some(b)
        } else {
            None
        }),
{
    let s = remote + seq!['/'] + b;
    let n = remote.len() as int;
    text_laws::trimming_takes_the_ends_off(pre, s, post);
    assert(s[n] == '/');
    assert forall|j: int| 0 <= j < n implies s[j] != '/' by {
        assert(s[j] == remote[j]);
    }
    let i = choose|i: int|
        0 <= i < s.len() && s[i] == '/' && forall|j: int| 0 <= j < i ==> s[j] != '/';
    assert(i == n);
    assert(s.skip(n + 1) =~= b);
}

/// An answer without a slash is the name of the branch itself.
pub proof fn names_without_a_remote_stand(pre: Seq<char>, b: Seq<char>, post: Seq<char>)
    requires
        text_laws::blank(pre),
        text_laws::blank(post),
        text_laws::tight(b),
        text_laws::lacks(b, '/'),
    ensures
        branch_named(pre + b + post) == (if b.len() > 0 && b[0] != '-' {
            Some(b)
        } else {
            None
        }),
{
    text_laws::trimming_takes_the_ends_off(pre, b, post);
    if exists|i: int| 0 <= i < b.len() && b[i] == '/' {
        let i = choose|i: int| 0 <= i < b.len() && b[i] == '/';
        assert(b[i] != '/');
    }
}

/// The mainline is what `origin` names, if its answer came and names a branch.
/// Otherwise it is "main" if that branch exists, else "master" if that one
/// does, and else there is none.
pub proof fn origin_goes_before_the_usual_names(head: Output, main: Output, master: Output)
    ensures
        match head {
            Output::Exited { success: true, stdout, .. } => branch_named(text::decoded(stdout@))
                is Some ==> mainline(head, main, master) == branch_named(text::decoded(stdout@)),
            _ => true,
        },
        (match head {
            Output::Exited { success: true, stdout, .. } => branch_named(text::decoded(stdout@))
                is None,
            _ => true,
        }) ==> mainline(head, main, master) == (match (main, master) {
            (Output::Exited { success: true, .. }, _) => Some("main"@),
            (_, Output::Exited { success: true, .. }) => Some("master"@),
            _ => None,
        }),
{
}

} // verus!
