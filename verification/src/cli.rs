//! The command line.
use vstd::prelude::*;
use vstd::string::*;

use crate::config::{DEFAULT_INTERVAL_SECS, DEFAULT_REFLOG_EXPIRE, DEFAULT_WORKERS};
use crate::shell;
use crate::shell::Shell;
use crate::text;
use crate::text::{debug_string, is_one_of, number, same};

verus! {

/// The version of the program.
pub const VERSION: &'static str = "0.6.1";

/// What the command line asks for.
#[derive(Debug, Clone, Copy, PartialEq, Eq, Structural)]
pub enum CliAction {
    Help,
    Version,
    GenerateCompletions(Shell),
    List,
    Run { daemon: bool, dry_run: bool },
}

// ── arguments ────────────────────────────────────────────────────────────────

/// Whether `f` is an option that stands alone.
pub open spec fn stands_alone(f: Seq<char>) -> bool {
    ||| f == "-h"@
    ||| f == "--help"@
    ||| f == "-V"@
    ||| f == "--version"@
    ||| f == "--list"@
    ||| f == "--daemon"@
    ||| f == "--dry-run"@
}

fn is_alone(f: &str) -> (r: bool)
    ensures
        r == stands_alone(f@),
{
    same(f, "-h") || same(f, "--help") || same(f, "-V") || same(f, "--version") || same(f, "--list")
        || same(f, "--daemon") || same(f, "--dry-run")
}

/// The first of `flags` that is not an option. What stands behind
/// "--generate-completions" is its argument.
pub open spec fn first_unknown(flags: Seq<Seq<char>>) -> Option<Seq<char>>
    decreases flags.len(),
{
    if flags.len() == 0 {
        None
    } else if stands_alone(flags[0]) {
        first_unknown(flags.skip(1))
    } else if flags[0] != "--generate-completions"@ {
        Some(flags[0])
    } else if flags.len() == 1 {
        None
    } else {
        first_unknown(flags.skip(2))
    }
}

/// The place of the first `w` in `list`; the length of `list` if there is none.
pub open spec fn first_at(list: Seq<Seq<char>>, w: Seq<char>) -> nat
    decreases list.len(),
{
    if list.len() == 0 || list[0] == w {
        0
    } else {
        1 + first_at(list.skip(1), w)
    }
}

/// The message about something that is not an option, given in quotes.
pub open spec fn unknown_option(shown: Seq<char>) -> Seq<char> {
    "unknown option "@ + shown + " (see --help)"@
}

/// The message about something that is not an option, given in quotes.
pub fn unknown_option_text(shown: &str) -> (r: String)
    ensures
        r@ == unknown_option(shown@),
        r@ == "unknown option "@ + shown@ + " (see --help)"@,
{
    let mut r = "unknown option ".to_string();
    r.append(shown);
    r.append(" (see --help)");
    r
}

/// What the arguments `flags` ask for, or what is wrong with them. An unknown
/// option is an error whatever else there is, so that a misspelt one cannot
/// start a run.
pub open spec fn parsed(flags: Seq<Seq<char>>) -> Result<CliAction, Seq<char>> {
    if let Some(f) = first_unknown(flags) {
        Err(unknown_option(text::debug_text(f)))
    } else if flags.contains("-h"@) || flags.contains("--help"@) {
        Ok(CliAction::Help)
    } else if flags.contains("-V"@) || flags.contains("--version"@) {
        Ok(CliAction::Version)
    } else if flags.contains("--generate-completions"@) {
        let at = first_at(flags, "--generate-completions"@);
        if at + 1 < flags.len() {
            let arg = flags[at as int + 1];
            match shell::shell_named(arg) {
                Some(s) => Ok(CliAction::GenerateCompletions(s)),
                None => Err(shell::unknown_shell(text::debug_text(arg))),
            }
        } else {
            Err("--generate-completions requires a shell argument (bash, zsh, fish)"@)
        }
    } else if flags.contains("--list"@) {
        Ok(CliAction::List)
    } else {
        Ok(
            CliAction::Run {
                daemon: flags.contains("--daemon"@),
                dry_run: flags.contains("--dry-run"@),
            },
        )
    }
}

fn find_unknown(flags: &[String]) -> (r: Option<usize>)
    ensures
        match r {
            Some(i) => i < flags@.len() && first_unknown(text::texts(flags@)) == Some(flags@[i as int]@),
            None => first_unknown(text::texts(flags@)) is None,
        },
{
    let ghost all = text::texts(flags@);
    let n: usize = flags.len();
    let mut i: usize = 0;
    assert(all.skip(0) =~= all);
    while i < n
        invariant
            n == flags@.len(),
            all == text::texts(flags@),
            all.len() == n,
            i <= n,
            first_unknown(all) == first_unknown(all.skip(i as int)),
        decreases n - i,
    {
        let ghost rest = all.skip(i as int);
        let f = flags[i].as_str();
        assert(rest[0] == f@);
        assert(rest.skip(1) =~= all.skip(i + 1));
        if is_alone(f) {
            i = i + 1;
        } else if !same(f, "--generate-completions") {
            return Some(i);
        } else if i + 1 == n {
            return None;
        } else {
            assert(rest.skip(2) =~= all.skip(i + 2));
            i = i + 2;
        }
    }
    None
}

fn find_first(list: &[String], w: &str) -> (r: Option<usize>)
    ensures
        match r {
            Some(i) => i < list@.len() && i == first_at(text::texts(list@), w@) && text::texts(
                list@,
            ).contains(w@),
            None => !text::texts(list@).contains(w@),
        },
{
    let ghost all = text::texts(list@);
    assert(all.skip(0) =~= all);
    for i in 0..list.len()
        invariant
            all == text::texts(list@),
            all.len() == list@.len(),
            first_at(all, w@) == i + first_at(all.skip(i as int), w@),
            forall|j: int| 0 <= j < i ==> #[trigger] all[j] != w@,
    {
        let ghost rest = all.skip(i as int);
        assert(rest[0] == list@[i as int]@);
        if same(list[i].as_str(), w) {
            assert(all[i as int] == w@);
            return Some(i);
        }
        assert(all[i as int] != w@);
        assert(rest.skip(1) =~= all.skip(i + 1));
    }
    None
}

/// What the arguments `flags` ask for, or a message about what is wrong with
/// them.
pub fn parse_args(flags: &[String]) -> (r: Result<CliAction, String>)
    ensures
        match r {
            Ok(a) => parsed(text::texts(flags@)) == Ok::<CliAction, Seq<char>>(a),
            Err(m) => parsed(text::texts(flags@)) == Err::<CliAction, Seq<char>>(m@),
        },
{
    let ghost all = text::texts(flags@);
    match find_unknown(flags) {
        Some(i) => {
            return Err(unknown_option_text(debug_string(flags[i].as_str()).as_str()));
        },
        None => {},
    }
    if is_one_of(flags, "-h") || is_one_of(flags, "--help") {
        return Ok(CliAction::Help);
    }
    if is_one_of(flags, "-V") || is_one_of(flags, "--version") {
        return Ok(CliAction::Version);
    }
    match find_first(flags, "--generate-completions") {
        Some(at) => {
            assert(all.len() == flags@.len());
            let n: usize = flags.len();
            if at < n - 1 {
                assert(all[at + 1] == flags@[at + 1]@);
                return match Shell::parse(flags[at + 1].as_str()) {
                    Ok(s) => Ok(CliAction::GenerateCompletions(s)),
                    Err(m) => Err(m),
                };
            }
            return Err(
                "--generate-completions requires a shell argument (bash, zsh, fish)".to_string(),
            );
        },
        None => {},
    }
    if is_one_of(flags, "--list") {
        return Ok(CliAction::List);
    }
    Ok(
        CliAction::Run {
            daemon: is_one_of(flags, "--daemon"),
            dry_run: is_one_of(flags, "--dry-run"),
        },
    )
}

proof fn lemma_all_known(flags: Seq<Seq<char>>)
    requires
        first_unknown(flags) is None,
        !flags.contains("--generate-completions"@),
    ensures
        forall|i: int| 0 <= i < flags.len() ==> stands_alone(#[trigger] flags[i]),
    decreases flags.len(),
{
    if flags.len() > 0 {
        let rest = flags.skip(1);
        assert(flags.contains(flags[0]));
        if rest.contains("--generate-completions"@) {
            let i = choose|i: int| 0 <= i < rest.len() && rest[i] == "--generate-completions"@;
            assert(flags[i + 1] == "--generate-completions"@);
        }
        lemma_all_known(rest);
        assert forall|i: int| 0 <= i < flags.len() implies stands_alone(#[trigger] flags[i]) by {
            if i > 0 {
                assert(flags[i] == rest[i - 1]);
            }
        }
    }
}

/// Repositories are cleaned only if every argument is one of the two options
/// that go with a run: nothing misspelt and nothing else gets that far.
pub proof fn runs_take_run_options_only(flags: Seq<Seq<char>>, i: int)
    requires
        parsed(flags) matches Ok(a) && a is Run,
        0 <= i < flags.len(),
    ensures
        flags[i] == "--daemon"@ || flags[i] == "--dry-run"@,
{
    lemma_all_known(flags);
    assert(stands_alone(flags[i]));
    assert(flags.contains(flags[i]));
}

/// Whether `f` is one of the options that stand alone.
pub open spec fn is_plain_option(f: Seq<char>) -> bool {
    f == "-h"@ || f == "--help"@ || f == "-V"@ || f == "--version"@ || f == "--list"@ || f
        == "--daemon"@ || f == "--dry-run"@
}

/// Whether every argument is an option that stands alone.
pub open spec fn all_plain(flags: Seq<Seq<char>>) -> bool {
    forall|i: int| 0 <= i < flags.len() ==> is_plain_option(#[trigger] flags[i])
}

/// Whether an argument is among the others, wherever it stands.
pub open spec fn given(flags: Seq<Seq<char>>, f: Seq<char>) -> bool {
    exists|i: int| 0 <= i < flags.len() && #[trigger] flags[i] == f
}

proof fn lemma_completions_are_not_plain()
    ensures
        !is_plain_option("--generate-completions"@),
        !stands_alone("--generate-completions"@),
{
    reveal_strlit("--generate-completions");
    reveal_strlit("-h");
    reveal_strlit("--help");
    reveal_strlit("-V");
    reveal_strlit("--version");
    reveal_strlit("--list");
    reveal_strlit("--daemon");
    reveal_strlit("--dry-run");
    assert("--generate-completions"@.len() == 22);
    assert("-h"@.len() == 2);
    assert("--help"@.len() == 6);
    assert("-V"@.len() == 2);
    assert("--version"@.len() == 9);
    assert("--list"@.len() == 6);
    assert("--daemon"@.len() == 8);
    assert("--dry-run"@.len() == 9);
}

proof fn lemma_plain_flags_are_known(flags: Seq<Seq<char>>)
    requires
        all_plain(flags),
    ensures
        first_unknown(flags) is None,
        !flags.contains("--generate-completions"@),
    decreases flags.len(),
{
    lemma_completions_are_not_plain();
    if flags.len() > 0 {
        let t = flags.skip(1);
        assert forall|i: int| 0 <= i < t.len() implies is_plain_option(#[trigger] t[i]) by {
            assert(t[i] == flags[i + 1]);
        }
        lemma_plain_flags_are_known(t);
        assert(is_plain_option(flags[0]));
        if flags.contains("--generate-completions"@) {
            let i = choose|i: int| 0 <= i < flags.len() && flags[i] == "--generate-completions"@;
            assert(is_plain_option(flags[i]));
        }
    }
}

proof fn lemma_given(flags: Seq<Seq<char>>, f: Seq<char>)
    ensures
        given(flags, f) <==> flags.contains(f),
{
    if flags.contains(f) {
        let i = choose|i: int| 0 <= i < flags.len() && flags[i] == f;
        assert(flags[i] == f);
    }
}

/// Options that stand alone ask for the same wherever they stand: help before
/// the version, the version before a listing, a listing before a run. A run is
/// a daemon just if "--daemon" is given, and dry just if "--dry-run" is.
pub proof fn plain_options_ask_wherever_they_stand(flags: Seq<Seq<char>>)
    requires
        all_plain(flags),
    ensures
        parsed(flags) == Ok::<CliAction, Seq<char>>(
            if given(flags, "-h"@) || given(flags, "--help"@) {
                CliAction::Help
            } else if given(flags, "-V"@) || given(flags, "--version"@) {
                CliAction::Version
            } else if given(flags, "--list"@) {
                CliAction::List
            } else {
                CliAction::Run {
                    daemon: given(flags, "--daemon"@),
                    dry_run: given(flags, "--dry-run"@),
                }
            },
        ),
{
    lemma_plain_flags_are_known(flags);
    lemma_given(flags, "-h"@);
    lemma_given(flags, "--help"@);
    lemma_given(flags, "-V"@);
    lemma_given(flags, "--version"@);
    lemma_given(flags, "--list"@);
    lemma_given(flags, "--daemon"@);
    lemma_given(flags, "--dry-run"@);
}

/// A run is dry just if it was asked to be, and a daemon likewise.
pub proof fn runs_are_dry_just_if_asked(flags: Seq<Seq<char>>)
    ensures
        parsed(flags) matches Ok(CliAction::Run { daemon, dry_run }) ==> (daemon <==> given(
            flags,
            "--daemon"@,
        )) && (dry_run <==> given(flags, "--dry-run"@)),
{
    if let Ok(CliAction::Run { daemon, dry_run }) = parsed(flags) {
        assert forall|i: int| 0 <= i < flags.len() implies is_plain_option(#[trigger] flags[i]) by {
            runs_take_run_options_only(flags, i);
        }
        plain_options_ask_wherever_they_stand(flags);
    }
}

/// The order of the arguments of a run does not matter.
pub proof fn runs_do_not_depend_on_the_order(a: Seq<Seq<char>>, b: Seq<Seq<char>>)
    requires
        parsed(a) matches Ok(r) && r is Run,
        forall|f: Seq<char>| given(a, f) <==> #[trigger] given(b, f),
    ensures
        parsed(a) == parsed(b),
{
    assert forall|i: int| 0 <= i < a.len() implies is_plain_option(#[trigger] a[i]) by {
        runs_take_run_options_only(a, i);
    }
    assert forall|i: int| 0 <= i < b.len() implies is_plain_option(#[trigger] b[i]) by {
        assert(given(b, b[i]));
        let j = choose|j: int| 0 <= j < a.len() && #[trigger] a[j] == b[i];
        assert(is_plain_option(a[j]));
    }
    plain_options_ask_wherever_they_stand(a);
    plain_options_ask_wherever_they_stand(b);
    assert(given(a, "-h"@) == given(b, "-h"@));
    assert(given(a, "--help"@) == given(b, "--help"@));
    assert(given(a, "-V"@) == given(b, "-V"@));
    assert(given(a, "--version"@) == given(b, "--version"@));
    assert(given(a, "--list"@) == given(b, "--list"@));
    assert(given(a, "--daemon"@) == given(b, "--daemon"@));
    assert(given(a, "--dry-run"@) == given(b, "--dry-run"@));
}

proof fn lemma_unknown_behind(pre: Seq<Seq<char>>, rest: Seq<Seq<char>>)
    requires
        all_plain(pre),
    ensures
        first_unknown(pre + rest) == first_unknown(rest),
    decreases pre.len(),
{
    if pre.len() == 0 {
        assert(pre + rest =~= rest);
    } else {
        let t = pre.skip(1);
        assert forall|i: int| 0 <= i < t.len() implies is_plain_option(#[trigger] t[i]) by {
            assert(t[i] == pre[i + 1]);
        }
        lemma_unknown_behind(t, rest);
        assert(is_plain_option(pre[0]));
        assert((pre + rest)[0] == pre[0]);
        assert((pre + rest).skip(1) =~= t + rest);
    }
}

/// The first argument that is no option is an error, whatever stands around
/// it, and the message is about that argument.
pub proof fn unknown_options_are_errors(
    pre: Seq<Seq<char>>,
    f: Seq<char>,
    post: Seq<Seq<char>>,
)
    requires
        all_plain(pre),
        !is_plain_option(f),
        f != "--generate-completions"@,
    ensures
        parsed(pre + seq![f] + post) == Err::<CliAction, Seq<char>>(
            "unknown option "@ + text::debug_text(f) + " (see --help)"@,
        ),
{
    let rest = seq![f] + post;
    lemma_unknown_behind(pre, rest);
    assert(rest[0] == f);
    assert(pre + seq![f] + post =~= pre + rest);
}

proof fn lemma_first_at(pre: Seq<Seq<char>>, w: Seq<char>, rest: Seq<Seq<char>>)
    requires
        !given(pre, w),
    ensures
        first_at(pre + seq![w] + rest, w) == pre.len(),
    decreases pre.len(),
{
    let all = pre + seq![w] + rest;
    if pre.len() == 0 {
        assert(all[0] == w);
    } else {
        let t = pre.skip(1);
        if given(t, w) {
            let i = choose|i: int| 0 <= i < t.len() && #[trigger] t[i] == w;
            assert(pre[i + 1] == w);
        }
        lemma_first_at(t, w, rest);
        assert(pre[0] != w);
        assert(all[0] == pre[0]);
        assert(all.skip(1) =~= t + seq![w] + rest);
    }
}

/// Whether nothing among the arguments is an error: each is an option that
/// stands alone, or the option that takes a shell, or what it takes.
pub open spec fn options_only(flags: Seq<Seq<char>>) -> bool
    decreases flags.len(),
{
    if flags.len() == 0 {
        true
    } else if is_plain_option(flags[0]) {
        options_only(flags.skip(1))
    } else {
        flags[0] == "--generate-completions"@ && (flags.len() == 1 || options_only(flags.skip(2)))
    }
}

proof fn lemma_options_are_known(flags: Seq<Seq<char>>)
    requires
        options_only(flags),
    ensures
        first_unknown(flags) is None,
    decreases flags.len(),
{
    if flags.len() > 0 {
        if is_plain_option(flags[0]) {
            lemma_options_are_known(flags.skip(1));
        } else if flags.len() > 1 {
            lemma_options_are_known(flags.skip(2));
        }
    }
}

/// What stands behind the first "--generate-completions" is the name of a
/// shell, and a completion script for that shell is asked for, unless help or
/// the version is; another name there is an error.
pub proof fn completions_take_a_shell(
    pre: Seq<Seq<char>>,
    arg: Seq<char>,
    post: Seq<Seq<char>>,
)
    requires
        all_plain(pre),
        options_only(post),
    ensures
        ({
            let flags = pre + seq!["--generate-completions"@, arg] + post;
            parsed(flags) == (if given(flags, "-h"@) || given(flags, "--help"@) {
                Ok::<CliAction, Seq<char>>(CliAction::Help)
            } else if given(flags, "-V"@) || given(flags, "--version"@) {
                Ok(CliAction::Version)
            } else if arg == "bash"@ {
                Ok(CliAction::GenerateCompletions(Shell::Bash))
            } else if arg == "zsh"@ {
                Ok(CliAction::GenerateCompletions(Shell::Zsh))
            } else if arg == "fish"@ {
                Ok(CliAction::GenerateCompletions(Shell::Fish))
            } else {
                Err(
                    "unknown shell "@ + text::debug_text(arg) + "; supported: bash, zsh, fish"@,
                )
            })
        }),
{
    let gc = "--generate-completions"@;
    let flags = pre + seq![gc, arg] + post;
    let rest = seq![gc, arg] + post;
    lemma_completions_are_not_plain();
    lemma_options_are_known(post);
    lemma_unknown_behind(pre, rest);
    assert(flags =~= pre + rest);
    assert(rest.skip(2) =~= post);
    if given(pre, gc) {
        let i = choose|i: int| 0 <= i < pre.len() && #[trigger] pre[i] == gc;
        assert(is_plain_option(pre[i]));
    }
    lemma_first_at(pre, gc, seq![arg] + post);
    assert(flags =~= pre + seq![gc] + (seq![arg] + post));
    assert(flags[pre.len() as int] == gc);
    assert(flags[pre.len() as int + 1] == arg);
    assert(flags.contains(gc));
    lemma_given(flags, "-h"@);
    lemma_given(flags, "--help"@);
    lemma_given(flags, "-V"@);
    lemma_given(flags, "--version"@);
    shell::shells_are_found_by_name(Shell::Bash);
    shell::shells_are_found_by_name(Shell::Zsh);
    shell::shells_are_found_by_name(Shell::Fish);
}

/// "--generate-completions" without anything behind it is an error, unless
/// help or the version is asked for.
pub proof fn completions_need_a_shell(pre: Seq<Seq<char>>)
    requires
        all_plain(pre),
    ensures
        parsed(pre.push("--generate-completions"@)) == (if given(pre, "-h"@) || given(
            pre,
            "--help"@,
        ) {
            Ok::<CliAction, Seq<char>>(CliAction::Help)
        } else if given(pre, "-V"@) || given(pre, "--version"@) {
            Ok(CliAction::Version)
        } else {
            Err("--generate-completions requires a shell argument (bash, zsh, fish)"@)
        }),
{
    let gc = "--generate-completions"@;
    let flags = pre.push(gc);
    let rest = seq![gc];
    lemma_completions_are_not_plain();
    lemma_unknown_behind(pre, rest);
    assert(flags =~= pre + rest);
    if given(pre, gc) {
        let i = choose|i: int| 0 <= i < pre.len() && #[trigger] pre[i] == gc;
        assert(is_plain_option(pre[i]));
    }
    lemma_first_at(pre, gc, Seq::<Seq<char>>::empty());
    assert(flags =~= pre + seq![gc] + Seq::<Seq<char>>::empty());
    assert(flags[pre.len() as int] == gc);
    assert(flags.contains(gc));
    lemma_given_before(pre, gc, "-h"@);
    lemma_given_before(pre, gc, "--help"@);
    lemma_given_before(pre, gc, "-V"@);
    lemma_given_before(pre, gc, "--version"@);
}

proof fn lemma_given_before(pre: Seq<Seq<char>>, last: Seq<char>, f: Seq<char>)
    requires
        f != last,
    ensures
        pre.push(last).contains(f) <==> given(pre, f),
{
    let all = pre.push(last);
    if all.contains(f) {
        let i = choose|i: int| 0 <= i < all.len() && all[i] == f;
        assert(pre[i] == f);
    }
    if given(pre, f) {
        let i = choose|i: int| 0 <= i < pre.len() && #[trigger] pre[i] == f;
        assert(all[i] == f);
    }
}

/// Whether every argument is an option that stands alone, or the option that
/// takes a shell with what it takes behind it.
pub open spec fn whole_options(flags: Seq<Seq<char>>) -> bool
    decreases flags.len(),
{
    if flags.len() == 0 {
        true
    } else if is_plain_option(flags[0]) {
        whole_options(flags.skip(1))
    } else {
        flags[0] == "--generate-completions"@ && flags.len() > 1 && whole_options(flags.skip(2))
    }
}

proof fn lemma_unknown_behind_options(pre: Seq<Seq<char>>, rest: Seq<Seq<char>>)
    requires
        whole_options(pre),
    ensures
        first_unknown(pre + rest) == first_unknown(rest),
    decreases pre.len(),
{
    let all = pre + rest;
    lemma_completions_are_not_plain();
    if pre.len() == 0 {
        assert(all =~= rest);
    } else {
        assert(all[0] == pre[0]);
        if is_plain_option(pre[0]) {
            lemma_unknown_behind_options(pre.skip(1), rest);
            assert(all.skip(1) =~= pre.skip(1) + rest);
        } else {
            lemma_unknown_behind_options(pre.skip(2), rest);
            assert(all.skip(2) =~= pre.skip(2) + rest);
        }
    }
}

/// Behind the names of shells, too, the first argument that is no option is an
/// error.
pub proof fn unknown_options_behind_shells_are_errors(
    pre: Seq<Seq<char>>,
    f: Seq<char>,
    post: Seq<Seq<char>>,
)
    requires
        whole_options(pre),
        !is_plain_option(f),
        f != "--generate-completions"@,
    ensures
        parsed(pre + seq![f] + post) == Err::<CliAction, Seq<char>>(
            "unknown option "@ + text::debug_text(f) + " (see --help)"@,
        ),
{
    let rest = seq![f] + post;
    lemma_unknown_behind_options(pre, rest);
    assert(rest[0] == f);
    assert(pre + seq![f] + post =~= pre + rest);
}

// ── texts ────────────────────────────────────────────────────────────────────

/// The usage up to the default reflog cutoff.
pub const HELP_OPTIONS: &'static str = " [OPTIONS]

Options:
  --daemon                      Loop forever, sleeping MAINTENANCE_INTERVAL between cycles
  --dry-run                     Show what would run without executing git commands
  --list                        Print discovered repositories and exit
  --generate-completions SHELL  Print completion script (bash, zsh, fish) and exit
  --version                     Print version and exit
  -h, --help                    Print this help and exit

Environment variables:
  MAINTENANCE_REPOS              Comma-separated repo paths
  MAINTENANCE_GHQ_ENABLE         true → include all ghq-managed repos
  MAINTENANCE_REFLOG_EXPIRE      Reflog cutoff (default: ";

/// The usage from there to the default interval.
pub const HELP_INTERVAL: &'static str = ")
  MAINTENANCE_AGGRESSIVE         true → full repack + gc --aggressive
  MAINTENANCE_INTERVAL           Daemon sleep interval in seconds (default: ";

/// The usage from there to the default number of workers.
pub const HELP_WORKERS: &'static str = ")
  MAINTENANCE_WORKERS            Parallel workers (default: ";

/// The usage from there to its end.
pub const HELP_PIPELINE: &'static str = ")
  MAINTENANCE_SKIP_SUBMODULES    true → skip submodule cleanup
  MAINTENANCE_SKIP_LFS           true → skip git-lfs prune
  MAINTENANCE_PRUNE_TAGS         true → also delete local tags missing from the remote (fetch --prune-tags)
  MAINTENANCE_PRUNE_BRANCHES     true → delete merged local branches (non-bare only)
  MAINTENANCE_PRUNE_WORKTREES    true → remove worktrees merged into mainline or idle 3+ days (non-bare only)
  MAINTENANCE_PROTECTED_BRANCHES Comma-separated branch names to protect from deletion
  MAINTENANCE_CREDENTIAL_HELPERS true → let fetch and lfs prune use the configured credential helpers

Cleanup pipeline (per repo):
  1. git fetch --all --prune                         (--prune-tags if MAINTENANCE_PRUNE_TAGS)
  2. git pack-refs --all
  3. git worktree prune                              (non-bare only)
  4. git reflog expire --expire=<REFLOG_EXPIRE> --all
  5. git rerere gc
  6. git notes prune
  7. git worktree remove -- <merged or idle>         (if MAINTENANCE_PRUNE_WORKTREES, non-bare)
  8. git branch -d -- <merged>                       (if MAINTENANCE_PRUNE_BRANCHES, non-bare)
  9. git maintenance run --task=loose-objects
 10. git maintenance run --task=incremental-repack  (normal, if a pack is available)
     git repack -a -d -f                  (aggressive)
 11. git gc --auto                                   (normal)
     git gc --aggressive --prune=all                (aggressive)
 12. git maintenance run --task=commit-graph
 13. git submodule sync + foreach gc                 (if .gitmodules, non-bare only)
 14. git lfs prune                                   (if LFS configured)
";

/// The summary of how the program `prog` is used.
pub open spec fn usage(prog: Seq<char>) -> Seq<char> {
    "Usage: "@ + prog + HELP_OPTIONS@ + DEFAULT_REFLOG_EXPIRE@ + HELP_INTERVAL@ + text::decimal(
        DEFAULT_INTERVAL_SECS as nat,
    ) + HELP_WORKERS@ + text::decimal(DEFAULT_WORKERS as nat) + HELP_PIPELINE@
}

/// The summary of how the program `prog` is used.
pub fn help_text(prog: &str) -> (r: String)
    ensures
        r@ == usage(prog@),
        r@ == "Usage: "@ + prog@ + HELP_OPTIONS@ + "30.days.ago"@ + HELP_INTERVAL@ + text::decimal(
            24 * 60 * 60,
        ) + HELP_WORKERS@ + text::decimal(5) + HELP_PIPELINE@,
{
    let mut r = "Usage: ".to_string();
    r.append(prog);
    r.append(HELP_OPTIONS);
    r.append(DEFAULT_REFLOG_EXPIRE);
    r.append(HELP_INTERVAL);
    let secs = number(DEFAULT_INTERVAL_SECS as u128);
    r.append(secs.as_str());
    r.append(HELP_WORKERS);
    let workers = number(DEFAULT_WORKERS as u128);
    r.append(workers.as_str());
    r.append(HELP_PIPELINE);
    r
}

/// The line with the version of the program.
pub open spec fn version_line() -> Seq<char> {
    "git-bulk-clean "@ + VERSION@
}

/// The line with the version of the program.
pub fn version_text() -> (r: String)
    ensures
        r@ == version_line(),
        r@ == "git-bulk-clean "@ + "0.6.1"@,
{
    let mut r = "git-bulk-clean ".to_string();
    r.append(VERSION);
    r
}

/// The line about arguments that are wrong.
pub fn error_text(msg: &str) -> (r: String)
    ensures
        r@ == "error: "@ + msg@,
{
    let mut r = "error: ".to_string();
    r.append(msg);
    r
}

/// The name that the program goes by: what it was called as, if that is known.
pub fn program_name(args: &[String]) -> (r: &str)
    ensures
        r@ == (if args@.len() > 0 { args@[0]@ } else { "git-bulk-clean"@ }),
{
    if args.len() > 0 {
        args[0].as_str()
    } else {
        "git-bulk-clean"
    }
}

} // verus!
