//! Git invocations as values: where a command runs, its arguments, the
//! environment it gets, and what came back.
use vstd::prelude::*;
use vstd::string::*;

use crate::report;
use crate::report::sanitize_for_log;
use crate::text;
use crate::text::{decode, join, number, trim, words};

verus! {

/// How far a Git invocation is shielded from configuration.
#[derive(Debug, Clone, Copy, PartialEq, Eq, Structural)]
pub enum Profile {
    /// A local question: hooks are off.
    Probe,
    /// A maintenance command: hooks, credential helpers and the file system
    /// monitor are off, and the plain `ssh` client is used.
    Hardened,
    /// As `Hardened`, but the configured credential helpers stay in force.
    Helpers,
}

/// A Git command line: `git` with `args`, run in `dir`.
#[derive(Debug)]
pub struct GitCall {
    pub dir: String,
    pub args: Vec<String>,
    pub profile: Profile,
}

/// The texts of a `GitCall`.
pub struct CallView {
    pub dir: Seq<char>,
    pub args: Seq<Seq<char>>,
    pub profile: Profile,
}

impl View for GitCall {
    type V = CallView;

    open spec fn view(&self) -> CallView {
        CallView { dir: self.dir@, args: text::texts(self.args@), profile: self.profile }
    }
}

impl GitCall {
    /// `git` with `args`, run in `dir`.
    pub fn new(dir: &str, args: &[&str], profile: Profile) -> (r: GitCall)
        ensures
            r@ == (CallView { dir: dir@, args: text::slices(args@), profile }),
            r.dir@ == dir@,
            text::texts(r.args@) == text::slices(args@),
            r.profile == profile,
    {
        GitCall { dir: dir.to_string(), args: words(args), profile }
    }

    /// The command as a user would type it.
    pub fn shown(&self) -> (r: String)
        ensures
            r@ == shown(self@),
            r@ == "git "@ + text::joined(text::texts(self.args@), " "@),
    {
        let mut r = "git ".to_string();
        let args = join(&self.args, " ");
        r.append(args.as_str());
        r
    }

    /// The environment variables to set for the command, in order.
    pub fn env(&self) -> (r: Vec<(String, String)>)
        ensures
            pair_texts(r@) == git_env(self.profile),
    {
        with_git_config(self.profile)
    }

    /// The environment variables to take away from the command.
    pub fn unset(&self) -> (r: Vec<String>)
        ensures
            text::texts(r@) == scrubbed(),
    {
        words(&SCRUBBED_VARS)
    }
}

/// The command as a user would type it.
pub open spec fn shown(c: CallView) -> Seq<char> {
    "git "@ + text::joined(c.args, " "@)
}

// ── environment ──────────────────────────────────────────────────────────────

/// The texts of a list of pairs of strings.
pub open spec fn pair_texts(v: Seq<(String, String)>) -> Seq<(Seq<char>, Seq<char>)> {
    v.map_values(|p: (String, String)| (p.0@, p.1@))
}

/// The configuration entries that a profile forces, as keys and values.
pub open spec fn overrides(p: Profile) -> Seq<(Seq<char>, Seq<char>)> {
    match p {
        Profile::Probe => seq![("core.hooksPath"@, "/dev/null"@)],
        Profile::Hardened => seq![
            ("core.hooksPath"@, "/dev/null"@),
            ("credential.helper"@, ""@),
            ("core.fsmonitor"@, "false"@),
            ("core.sshCommand"@, "ssh"@),
        ],
        Profile::Helpers => seq![
            ("core.hooksPath"@, "/dev/null"@),
            ("core.fsmonitor"@, "false"@),
            ("core.sshCommand"@, "ssh"@),
        ],
    }
}

/// The variables that carry configuration entries to Git: a key and a value
/// for each entry, numbered from zero.
pub open spec fn numbered(entries: Seq<(Seq<char>, Seq<char>)>) -> Seq<(Seq<char>, Seq<char>)>
    decreases entries.len(),
{
    if entries.len() == 0 {
        Seq::<(Seq<char>, Seq<char>)>::empty()
    } else {
        let n = (entries.len() - 1) as nat;
        numbered(entries.drop_last()).push(
            ("GIT_CONFIG_KEY_"@ + text::decimal(n), entries.last().0),
        ).push(("GIT_CONFIG_VALUE_"@ + text::decimal(n), entries.last().1))
    }
}

/// The environment variables of a Git invocation: no terminal prompt, and the
/// forced configuration entries.
pub open spec fn git_env(p: Profile) -> Seq<(Seq<char>, Seq<char>)> {
    seq![
        ("GIT_TERMINAL_PROMPT"@, "0"@),
        ("GIT_CONFIG_COUNT"@, text::decimal(overrides(p).len())),
    ] + numbered(overrides(p))
}

fn override_pairs(p: Profile) -> (r: Vec<(&'static str, &'static str)>)
    ensures
        r@.map_values(|e: (&'static str, &'static str)| (e.0@, e.1@)) == overrides(p),
{
    let mut r: Vec<(&'static str, &'static str)> = Vec::new();
    r.push(("core.hooksPath", "/dev/null"));
    match p {
        Profile::Probe => {},
        Profile::Hardened => {
            r.push(("credential.helper", ""));
            r.push(("core.fsmonitor", "false"));
            r.push(("core.sshCommand", "ssh"));
        },
        Profile::Helpers => {
            r.push(("core.fsmonitor", "false"));
            r.push(("core.sshCommand", "ssh"));
        },
    }
    assert(r@.map_values(|e: (&'static str, &'static str)| (e.0@, e.1@)) =~= overrides(p));
    r
}

/// The environment variables of an invocation under profile `p`.
pub fn with_git_config(p: Profile) -> (r: Vec<(String, String)>)
    ensures
        pair_texts(r@) == git_env(p),
{
    let entries = override_pairs(p);
    let ghost all = overrides(p);
    let mut r: Vec<(String, String)> = Vec::new();
    r.push(("GIT_TERMINAL_PROMPT".to_string(), "0".to_string()));
    r.push(("GIT_CONFIG_COUNT".to_string(), number(entries.len() as u128)));
    let ghost head = seq![
        ("GIT_TERMINAL_PROMPT"@, "0"@),
        ("GIT_CONFIG_COUNT"@, text::decimal(all.len())),
    ];
    assert(all.len() == entries@.len()) by {
        assert(entries@.map_values(|e: (&'static str, &'static str)| (e.0@, e.1@)).len()
            == entries@.len());
    }
    assert(all.take(0) =~= Seq::<(Seq<char>, Seq<char>)>::empty());
    assert(pair_texts(r@) =~= head + numbered(all.take(0)));
    for i in 0..entries.len()
        invariant
            all == overrides(p),
            all == entries@.map_values(|e: (&'static str, &'static str)| (e.0@, e.1@)),
            pair_texts(r@) == head + numbered(all.take(i as int)),
    {
        let ghost before = pair_texts(r@);
        let mut key = "GIT_CONFIG_KEY_".to_string();
        let mut value = "GIT_CONFIG_VALUE_".to_string();
        let k = number(i as u128);
        key.append(k.as_str());
        value.append(k.as_str());
        assert(all[i as int] == (entries@[i as int].0@, entries@[i as int].1@));
        assert(all.take(i + 1).drop_last() =~= all.take(i as int));
        assert(all.take(i + 1).last() == all[i as int]);
        let ghost ka = key@;
        let ghost va = value@;
        r.push((key, entries[i].0.to_string()));
        r.push((value, entries[i].1.to_string()));
        assert(pair_texts(r@) =~= before.push((ka, all[i as int].0)).push((va, all[i as int].1)));
        assert(pair_texts(r@) =~= head + numbered(all.take(i + 1)));
    }
    assert(all.take(entries@.len() as int) =~= all);
    r
}

/// Variables that must not reach a Git process from the surrounding
/// environment: they redirect it to another repository, name programs for it
/// to run, or have it write diagnostics to a file.
pub const SCRUBBED_VARS: [&'static str; 36] = [
    "GIT_DIR",
    "GIT_WORK_TREE",
    "GIT_COMMON_DIR",
    "GIT_INDEX_FILE",
    "GIT_OBJECT_DIRECTORY",
    "GIT_ALTERNATE_OBJECT_DIRECTORIES",
    "GIT_NAMESPACE",
    "GIT_GRAFT_FILE",
    "GIT_SHALLOW_FILE",
    "GIT_REPLACE_REF_BASE",
    "GIT_CEILING_DIRECTORIES",
    "GIT_CONFIG",
    "GIT_CONFIG_PARAMETERS",
    "GIT_EXEC_PATH",
    "GIT_EDITOR",
    "GIT_SEQUENCE_EDITOR",
    "GIT_PAGER",
    "GIT_EXTERNAL_DIFF",
    "GIT_SSH",
    "GIT_SSH_COMMAND",
    "GIT_SSH_VARIANT",
    "GIT_PROXY_COMMAND",
    "GIT_ASKPASS",
    "SSH_ASKPASS",
    "SSH_ASKPASS_REQUIRE",
    "GIT_TRACE",
    "GIT_TRACE2",
    "GIT_TRACE2_EVENT",
    "GIT_TRACE2_PERF",
    "GIT_TRACE_CURL",
    "GIT_TRACE_CURL_NO_DATA",
    "GIT_TRACE_PACKET",
    "GIT_TRACE_PACK_ACCESS",
    "GIT_TRACE_PERFORMANCE",
    "GIT_TRACE_SETUP",
    "GIT_TRACE_SHALLOW",
];

proof fn lemma_numbered(entries: Seq<(Seq<char>, Seq<char>)>)
    ensures
        numbered(entries).len() == 2 * entries.len(),
        forall|i: int|
            0 <= i < entries.len() ==> numbered(entries)[2 * i] == (
                "GIT_CONFIG_KEY_"@ + text::decimal(i as nat),
                (#[trigger] entries[i]).0,
            ) && numbered(entries)[2 * i + 1] == (
                "GIT_CONFIG_VALUE_"@ + text::decimal(i as nat),
                entries[i].1,
            ),
    decreases entries.len(),
{
    if entries.len() > 0 {
        let rest = entries.drop_last();
        lemma_numbered(rest);
        assert forall|i: int| 0 <= i < entries.len() implies numbered(entries)[2 * i] == (
            "GIT_CONFIG_KEY_"@ + text::decimal(i as nat),
            (#[trigger] entries[i]).0,
        ) && numbered(entries)[2 * i + 1] == (
            "GIT_CONFIG_VALUE_"@ + text::decimal(i as nat),
            entries[i].1,
        ) by {
            if i < rest.len() {
                assert(rest[i] == entries[i]);
            }
        }
    }
}

/// Git is told how many configuration entries are forced on it, and gets the
/// key and the value of each.
pub proof fn every_override_reaches_git(p: Profile, i: int)
    requires
        0 <= i < overrides(p).len(),
    ensures
        git_env(p).contains(("GIT_CONFIG_COUNT"@, text::decimal(overrides(p).len()))),
        git_env(p).contains(
            ("GIT_CONFIG_KEY_"@ + text::decimal(i as nat), overrides(p)[i].0),
        ),
        git_env(p).contains(
            ("GIT_CONFIG_VALUE_"@ + text::decimal(i as nat), overrides(p)[i].1),
        ),
{
    let all = overrides(p);
    lemma_numbered(all);
    assert(git_env(p)[1] == ("GIT_CONFIG_COUNT"@, text::decimal(all.len())));
    assert(all[i] == all[i]);
    assert(git_env(p)[2 * i + 2] == numbered(all)[2 * i]);
    assert(git_env(p)[2 * i + 3] == numbered(all)[2 * i + 1]);
}

/// No invocation asks on the terminal or runs a hook, whatever its profile.
pub proof fn nothing_is_asked_and_no_hook_runs(p: Profile)
    ensures
        git_env(p).contains(("GIT_TERMINAL_PROMPT"@, "0"@)),
        overrides(p).contains(("core.hooksPath"@, "/dev/null"@)),
{
    assert(git_env(p)[0] == ("GIT_TERMINAL_PROMPT"@, "0"@));
    assert(overrides(p)[0] == ("core.hooksPath"@, "/dev/null"@));
}

/// A maintenance command resets the credential helpers unless it was given
/// leave to use them; then nothing is forced on them.
pub proof fn credential_helpers_need_leave(v: Seq<char>)
    ensures
        overrides(Profile::Hardened).contains(("credential.helper"@, ""@)),
        !overrides(Profile::Helpers).contains(("credential.helper"@, v)),
{
    assert(overrides(Profile::Hardened)[1] == ("credential.helper"@, ""@));
    reveal_strlit("credential.helper");
    reveal_strlit("core.hooksPath");
    reveal_strlit("core.fsmonitor");
    reveal_strlit("core.sshCommand");
    assert("credential.helper"@[1] == 'r');
    assert("core.hooksPath"@[1] == 'o');
    assert("core.fsmonitor"@[1] == 'o');
    assert("core.sshCommand"@[1] == 'o');
}

/// The variables that must not reach a Git process.
pub open spec fn scrubbed() -> Seq<Seq<char>> {
    text::slices(SCRUBBED_VARS@)
}

/// What redirects Git to other files, hands it credentials, names a program
/// for it to reach a remote with, hides repositories from it, or has it write
/// diagnostics, does not reach it.
pub proof fn unwanted_variables_are_scrubbed()
    ensures
        scrubbed().contains("GIT_DIR"@),
        scrubbed().contains("GIT_WORK_TREE"@),
        scrubbed().contains("GIT_COMMON_DIR"@),
        scrubbed().contains("GIT_INDEX_FILE"@),
        scrubbed().contains("GIT_OBJECT_DIRECTORY"@),
        scrubbed().contains("GIT_ALTERNATE_OBJECT_DIRECTORIES"@),
        scrubbed().contains("GIT_NAMESPACE"@),
        scrubbed().contains("GIT_GRAFT_FILE"@),
        scrubbed().contains("GIT_SHALLOW_FILE"@),
        scrubbed().contains("GIT_REPLACE_REF_BASE"@),
        scrubbed().contains("GIT_CEILING_DIRECTORIES"@),
        scrubbed().contains("GIT_CONFIG"@),
        scrubbed().contains("GIT_CONFIG_PARAMETERS"@),
        scrubbed().contains("GIT_EXEC_PATH"@),
        scrubbed().contains("GIT_EDITOR"@),
        scrubbed().contains("GIT_SEQUENCE_EDITOR"@),
        scrubbed().contains("GIT_PAGER"@),
        scrubbed().contains("GIT_EXTERNAL_DIFF"@),
        scrubbed().contains("GIT_SSH"@),
        scrubbed().contains("GIT_SSH_COMMAND"@),
        scrubbed().contains("GIT_SSH_VARIANT"@),
        scrubbed().contains("GIT_PROXY_COMMAND"@),
        scrubbed().contains("GIT_ASKPASS"@),
        scrubbed().contains("SSH_ASKPASS"@),
        scrubbed().contains("SSH_ASKPASS_REQUIRE"@),
        scrubbed().contains("GIT_TRACE"@),
        scrubbed().contains("GIT_TRACE2"@),
        scrubbed().contains("GIT_TRACE2_EVENT"@),
        scrubbed().contains("GIT_TRACE2_PERF"@),
        scrubbed().contains("GIT_TRACE_CURL"@),
        scrubbed().contains("GIT_TRACE_CURL_NO_DATA"@),
        scrubbed().contains("GIT_TRACE_PACKET"@),
        scrubbed().contains("GIT_TRACE_PACK_ACCESS"@),
        scrubbed().contains("GIT_TRACE_PERFORMANCE"@),
        scrubbed().contains("GIT_TRACE_SETUP"@),
        scrubbed().contains("GIT_TRACE_SHALLOW"@),
{
    let all = scrubbed();
    assert(all[0] == "GIT_DIR"@);
    assert(all[1] == "GIT_WORK_TREE"@);
    assert(all[2] == "GIT_COMMON_DIR"@);
    assert(all[3] == "GIT_INDEX_FILE"@);
    assert(all[4] == "GIT_OBJECT_DIRECTORY"@);
    assert(all[5] == "GIT_ALTERNATE_OBJECT_DIRECTORIES"@);
    assert(all[6] == "GIT_NAMESPACE"@);
    assert(all[7] == "GIT_GRAFT_FILE"@);
    assert(all[8] == "GIT_SHALLOW_FILE"@);
    assert(all[9] == "GIT_REPLACE_REF_BASE"@);
    assert(all[10] == "GIT_CEILING_DIRECTORIES"@);
    assert(all[11] == "GIT_CONFIG"@);
    assert(all[12] == "GIT_CONFIG_PARAMETERS"@);
    assert(all[13] == "GIT_EXEC_PATH"@);
    assert(all[14] == "GIT_EDITOR"@);
    assert(all[15] == "GIT_SEQUENCE_EDITOR"@);
    assert(all[16] == "GIT_PAGER"@);
    assert(all[17] == "GIT_EXTERNAL_DIFF"@);
    assert(all[18] == "GIT_SSH"@);
    assert(all[19] == "GIT_SSH_COMMAND"@);
    assert(all[20] == "GIT_SSH_VARIANT"@);
    assert(all[21] == "GIT_PROXY_COMMAND"@);
    assert(all[22] == "GIT_ASKPASS"@);
    assert(all[23] == "SSH_ASKPASS"@);
    assert(all[24] == "SSH_ASKPASS_REQUIRE"@);
    assert(all[25] == "GIT_TRACE"@);
    assert(all[26] == "GIT_TRACE2"@);
    assert(all[27] == "GIT_TRACE2_EVENT"@);
    assert(all[28] == "GIT_TRACE2_PERF"@);
    assert(all[29] == "GIT_TRACE_CURL"@);
    assert(all[30] == "GIT_TRACE_CURL_NO_DATA"@);
    assert(all[31] == "GIT_TRACE_PACKET"@);
    assert(all[32] == "GIT_TRACE_PACK_ACCESS"@);
    assert(all[33] == "GIT_TRACE_PERFORMANCE"@);
    assert(all[34] == "GIT_TRACE_SETUP"@);
    assert(all[35] == "GIT_TRACE_SHALLOW"@);
}

/// Whether a variable may be one that is set for a Git process.
spec fn may_be_set(k: Seq<char>) -> bool {
    k.len() > 11 && ((k[4] == 'T' && k[5] == 'E') || (k[4] == 'C' && k[5] == 'O' && k[6] == 'N'
        && k[11] != 'P'))
}

proof fn lemma_scrubbed_are_not_set(j: int)
    requires
        0 <= j < scrubbed().len(),
    ensures
        !may_be_set(scrubbed()[j]),
{
    reveal_strlit("GIT_DIR");
    assert("GIT_DIR"@.len() == 7);
    reveal_strlit("GIT_WORK_TREE");
    assert("GIT_WORK_TREE"@[4] == 'W');
    reveal_strlit("GIT_COMMON_DIR");
    assert("GIT_COMMON_DIR"@[4] == 'C' && "GIT_COMMON_DIR"@[6] == 'M');
    reveal_strlit("GIT_INDEX_FILE");
    assert("GIT_INDEX_FILE"@[4] == 'I');
    reveal_strlit("GIT_OBJECT_DIRECTORY");
    assert("GIT_OBJECT_DIRECTORY"@[4] == 'O');
    reveal_strlit("GIT_ALTERNATE_OBJECT_DIRECTORIES");
    assert("GIT_ALTERNATE_OBJECT_DIRECTORIES"@[4] == 'A');
    reveal_strlit("GIT_NAMESPACE");
    assert("GIT_NAMESPACE"@[4] == 'N');
    reveal_strlit("GIT_GRAFT_FILE");
    assert("GIT_GRAFT_FILE"@[4] == 'G');
    reveal_strlit("GIT_SHALLOW_FILE");
    assert("GIT_SHALLOW_FILE"@[4] == 'S');
    reveal_strlit("GIT_REPLACE_REF_BASE");
    assert("GIT_REPLACE_REF_BASE"@[4] == 'R');
    reveal_strlit("GIT_CEILING_DIRECTORIES");
    assert("GIT_CEILING_DIRECTORIES"@[4] == 'C' && "GIT_CEILING_DIRECTORIES"@[5] == 'E');
    reveal_strlit("GIT_CONFIG");
    assert("GIT_CONFIG"@.len() == 10);
    reveal_strlit("GIT_CONFIG_PARAMETERS");
    assert("GIT_CONFIG_PARAMETERS"@[4] == 'C' && "GIT_CONFIG_PARAMETERS"@[11] == 'P');
    reveal_strlit("GIT_EXEC_PATH");
    assert("GIT_EXEC_PATH"@[4] == 'E');
    reveal_strlit("GIT_EDITOR");
    assert("GIT_EDITOR"@.len() == 10);
    reveal_strlit("GIT_SEQUENCE_EDITOR");
    assert("GIT_SEQUENCE_EDITOR"@[4] == 'S');
    reveal_strlit("GIT_PAGER");
    assert("GIT_PAGER"@.len() == 9);
    reveal_strlit("GIT_EXTERNAL_DIFF");
    assert("GIT_EXTERNAL_DIFF"@[4] == 'E');
    reveal_strlit("GIT_SSH");
    assert("GIT_SSH"@.len() == 7);
    reveal_strlit("GIT_SSH_COMMAND");
    assert("GIT_SSH_COMMAND"@[4] == 'S');
    reveal_strlit("GIT_SSH_VARIANT");
    assert("GIT_SSH_VARIANT"@[4] == 'S');
    reveal_strlit("GIT_PROXY_COMMAND");
    assert("GIT_PROXY_COMMAND"@[4] == 'P');
    reveal_strlit("GIT_ASKPASS");
    assert("GIT_ASKPASS"@.len() == 11);
    reveal_strlit("SSH_ASKPASS");
    assert("SSH_ASKPASS"@.len() == 11);
    reveal_strlit("SSH_ASKPASS_REQUIRE");
    assert("SSH_ASKPASS_REQUIRE"@[4] == 'A');
    reveal_strlit("GIT_TRACE");
    assert("GIT_TRACE"@.len() == 9);
    reveal_strlit("GIT_TRACE2");
    assert("GIT_TRACE2"@.len() == 10);
    reveal_strlit("GIT_TRACE2_EVENT");
    assert("GIT_TRACE2_EVENT"@[5] == 'R');
    reveal_strlit("GIT_TRACE2_PERF");
    assert("GIT_TRACE2_PERF"@[5] == 'R');
    reveal_strlit("GIT_TRACE_CURL");
    assert("GIT_TRACE_CURL"@[5] == 'R');
    reveal_strlit("GIT_TRACE_CURL_NO_DATA");
    assert("GIT_TRACE_CURL_NO_DATA"@[5] == 'R');
    reveal_strlit("GIT_TRACE_PACKET");
    assert("GIT_TRACE_PACKET"@[5] == 'R');
    reveal_strlit("GIT_TRACE_PACK_ACCESS");
    assert("GIT_TRACE_PACK_ACCESS"@[5] == 'R');
    reveal_strlit("GIT_TRACE_PERFORMANCE");
    assert("GIT_TRACE_PERFORMANCE"@[5] == 'R');
    reveal_strlit("GIT_TRACE_SETUP");
    assert("GIT_TRACE_SETUP"@[5] == 'R');
    reveal_strlit("GIT_TRACE_SHALLOW");
    assert("GIT_TRACE_SHALLOW"@[5] == 'R');
    let all = scrubbed();
    assert(all[0] == "GIT_DIR"@);
    assert(all[1] == "GIT_WORK_TREE"@);
    assert(all[2] == "GIT_COMMON_DIR"@);
    assert(all[3] == "GIT_INDEX_FILE"@);
    assert(all[4] == "GIT_OBJECT_DIRECTORY"@);
    assert(all[5] == "GIT_ALTERNATE_OBJECT_DIRECTORIES"@);
    assert(all[6] == "GIT_NAMESPACE"@);
    assert(all[7] == "GIT_GRAFT_FILE"@);
    assert(all[8] == "GIT_SHALLOW_FILE"@);
    assert(all[9] == "GIT_REPLACE_REF_BASE"@);
    assert(all[10] == "GIT_CEILING_DIRECTORIES"@);
    assert(all[11] == "GIT_CONFIG"@);
    assert(all[12] == "GIT_CONFIG_PARAMETERS"@);
    assert(all[13] == "GIT_EXEC_PATH"@);
    assert(all[14] == "GIT_EDITOR"@);
    assert(all[15] == "GIT_SEQUENCE_EDITOR"@);
    assert(all[16] == "GIT_PAGER"@);
    assert(all[17] == "GIT_EXTERNAL_DIFF"@);
    assert(all[18] == "GIT_SSH"@);
    assert(all[19] == "GIT_SSH_COMMAND"@);
    assert(all[20] == "GIT_SSH_VARIANT"@);
    assert(all[21] == "GIT_PROXY_COMMAND"@);
    assert(all[22] == "GIT_ASKPASS"@);
    assert(all[23] == "SSH_ASKPASS"@);
    assert(all[24] == "SSH_ASKPASS_REQUIRE"@);
    assert(all[25] == "GIT_TRACE"@);
    assert(all[26] == "GIT_TRACE2"@);
    assert(all[27] == "GIT_TRACE2_EVENT"@);
    assert(all[28] == "GIT_TRACE2_PERF"@);
    assert(all[29] == "GIT_TRACE_CURL"@);
    assert(all[30] == "GIT_TRACE_CURL_NO_DATA"@);
    assert(all[31] == "GIT_TRACE_PACKET"@);
    assert(all[32] == "GIT_TRACE_PACK_ACCESS"@);
    assert(all[33] == "GIT_TRACE_PERFORMANCE"@);
    assert(all[34] == "GIT_TRACE_SETUP"@);
    assert(all[35] == "GIT_TRACE_SHALLOW"@);
}

/// No variable is both scrubbed and set: what a Git process is told on purpose
/// reaches it.
pub proof fn nothing_scrubbed_is_set(p: Profile, i: int)
    requires
        0 <= i < git_env(p).len(),
    ensures
        !scrubbed().contains(git_env(p)[i].0),
{
    let env = git_env(p);
    let all = overrides(p);
    let key = env[i].0;
    lemma_numbered(all);
    reveal_strlit("GIT_TERMINAL_PROMPT");
    reveal_strlit("GIT_CONFIG_COUNT");
    reveal_strlit("GIT_CONFIG_KEY_");
    reveal_strlit("GIT_CONFIG_VALUE_");
    if i == 0 {
        assert(key == "GIT_TERMINAL_PROMPT"@);
    } else if i == 1 {
        assert(key == "GIT_CONFIG_COUNT"@);
    } else {
        let n = (i - 2) / 2;
        assert(all[n] == all[n]);
        assert(env[i] == numbered(all)[i - 2]);
        if i % 2 == 0 {
            assert(i - 2 == 2 * n);
            assert(key == "GIT_CONFIG_KEY_"@ + text::decimal(n as nat));
        } else {
            assert(i - 2 == 2 * n + 1);
            assert(key == "GIT_CONFIG_VALUE_"@ + text::decimal(n as nat));
        }
    }
    assert(may_be_set(key));
    if scrubbed().contains(key) {
        let j = choose|j: int| 0 <= j < scrubbed().len() && scrubbed()[j] == key;
        lemma_scrubbed_are_not_set(j);
    }
}

// ── results ──────────────────────────────────────────────────────────────────

/// What came of running a program.
#[derive(Debug)]
pub enum Output {
    /// It ran to its end.
    Exited { success: bool, stdout: Vec<u8>, stderr: Vec<u8> },
    /// It could not be run, for the reason given.
    NotRun { error: String },
}

/// Whether the program ran and reported success.
pub open spec fn succeeded(o: Output) -> bool {
    o matches Output::Exited { success, .. } && success
}

impl Output {
    /// Whether the program ran and reported success.
    pub fn is_success(&self) -> (r: bool)
        ensures
            r == succeeded(*self),
            self matches Output::Exited { success, .. } ==> r == success,
            self is NotRun ==> !r,
    {
        match self {
            Output::Exited { success, .. } => *success,
            Output::NotRun { .. } => false,
        }
    }

    /// The text on standard output of a program that succeeded.
    pub fn text(&self) -> (r: Option<String>)
        ensures
            text::opt_text(r) == printed(*self),
            match *self {
                Output::Exited { success: true, stdout, .. } => r matches Some(t) && t@
                    == text::decoded(stdout@),
                _ => r is None,
            },
    {
        match self {
            Output::Exited { success, stdout, .. } => if *success {
                Some(decode(stdout))
            } else {
                None
            },
            Output::NotRun { .. } => None,
        }
    }
}

/// The text on standard output of a program that succeeded.
pub open spec fn printed(o: Output) -> Option<Seq<char>> {
    match o {
        Output::Exited { success, stdout, .. } => if success {
            Some(text::decoded(stdout@))
        } else {
            None
        },
        Output::NotRun { .. } => None,
    }
}

/// What a program that succeeded printed is what is read of it.
pub proof fn what_is_printed_is_read(o: Output, t: Seq<char>)
    requires
        o matches Output::Exited { success, stdout, .. } && success && stdout@
            == vstd::utf8::encode_utf8(t),
    ensures
        printed(o) == Some(t),
{
    text::written_text_reads_back(t);
}

/// The log message about a command that failed and left `stderr` on standard
/// error. One that failed without a word is not logged.
pub open spec fn said_failing(dir: Seq<char>, command: Seq<char>, stderr: Seq<char>) -> Option<
    Seq<char>,
> {
    let said = text::trimmed(stderr);
    if said.len() == 0 {
        None
    } else {
        Some(about(dir, command) + report::sanitized(said))
    }
}

/// The beginning of a log message about a command.
pub open spec fn about(dir: Seq<char>, command: Seq<char>) -> Seq<char> {
    report::sanitized(dir) + ": `"@ + command + "` — "@
}

fn about_text(dir: &str, command: &str) -> (r: String)
    ensures
        r@ == about(dir@, command@),
        r@ == report::sanitized(dir@) + ": `"@ + command@ + "` — "@,
{
    let mut r = sanitize_for_log(dir);
    r.append(": `");
    r.append(command);
    r.append("` — ");
    r
}

/// The log message about a command that failed and left `stderr` on standard
/// error, if there is something to say about it.
pub fn failure_text(dir: &str, command: &str, stderr: &str) -> (r: Option<String>)
    ensures
        text::opt_text(r) == said_failing(dir@, command@, stderr@),
        text::trimmed(stderr@).len() == 0 ==> r is None,
        text::trimmed(stderr@).len() > 0 ==> (r matches Some(m) && m@ == report::sanitized(dir@)
            + ": `"@ + command@ + "` — "@ + report::sanitized(text::trimmed(stderr@))),
{
    let said = trim(stderr);
    if said.is_empty() {
        None
    } else {
        let mut r = about_text(dir, command);
        let said = sanitize_for_log(said);
        r.append(said.as_str());
        Some(r)
    }
}

/// The log message about a command that did not succeed.
pub open spec fn failure(dir: Seq<char>, command: Seq<char>, o: Output) -> Option<Seq<char>> {
    match o {
        Output::Exited { success, stderr, .. } => if success {
            None
        } else {
            said_failing(dir, command, text::decoded(stderr@))
        },
        Output::NotRun { error } => Some(about(dir, command) + error@),
    }
}

/// The log message about `command`, run in `dir`, if it did not succeed and
/// there is something to say about it.
pub fn failure_message(dir: &str, command: &str, o: &Output) -> (r: Option<String>)
    ensures
        text::opt_text(r) == failure(dir@, command@, *o),
        match *o {
            Output::Exited { success: true, .. } => r is None,
            Output::Exited { success: false, stderr, .. } => if text::trimmed(
                text::decoded(stderr@),
            ).len() == 0 {
                r is None
            } else {
                r matches Some(m) && m@ == report::sanitized(dir@) + ": `"@ + command@ + "` — "@
                    + report::sanitized(text::trimmed(text::decoded(stderr@)))
            },
            Output::NotRun { error } => r matches Some(m) && m@ == report::sanitized(dir@)
                + ": `"@ + command@ + "` — "@ + error@,
        },
{
    match o {
        Output::Exited { success, stderr, .. } => if *success {
            None
        } else {
            failure_text(dir, command, decode(stderr).as_str())
        },
        Output::NotRun { error } => {
            let mut r = about_text(dir, command);
            r.append(error.as_str());
            Some(r)
        },
    }
}

// ── laws ─────────────────────────────────────────────────────────────────────

/// Each profile forces just these configuration entries: none runs a hook; a
/// maintenance command also goes without the file system monitor and with the
/// plain `ssh` client, and without credential helpers unless they are wanted.
pub proof fn profiles_force_these_entries()
    ensures
        overrides(Profile::Probe) == seq![("core.hooksPath"@, "/dev/null"@)],
        overrides(Profile::Hardened) == seq![
            ("core.hooksPath"@, "/dev/null"@),
            ("credential.helper"@, ""@),
            ("core.fsmonitor"@, "false"@),
            ("core.sshCommand"@, "ssh"@),
        ],
        overrides(Profile::Helpers) == seq![
            ("core.hooksPath"@, "/dev/null"@),
            ("core.fsmonitor"@, "false"@),
            ("core.sshCommand"@, "ssh"@),
        ],
{
}

/// The environment of a question, and of a command with and without credential
/// helpers, variable by variable.
pub proof fn the_environment_is_spelled_out()
    ensures
        git_env(Profile::Probe) == seq![
            ("GIT_TERMINAL_PROMPT"@, "0"@),
            ("GIT_CONFIG_COUNT"@, text::decimal(1)),
            ("GIT_CONFIG_KEY_"@ + text::decimal(0), "core.hooksPath"@),
            ("GIT_CONFIG_VALUE_"@ + text::decimal(0), "/dev/null"@),
        ],
        git_env(Profile::Hardened) == seq![
            ("GIT_TERMINAL_PROMPT"@, "0"@),
            ("GIT_CONFIG_COUNT"@, text::decimal(4)),
            ("GIT_CONFIG_KEY_"@ + text::decimal(0), "core.hooksPath"@),
            ("GIT_CONFIG_VALUE_"@ + text::decimal(0), "/dev/null"@),
            ("GIT_CONFIG_KEY_"@ + text::decimal(1), "credential.helper"@),
            ("GIT_CONFIG_VALUE_"@ + text::decimal(1), ""@),
            ("GIT_CONFIG_KEY_"@ + text::decimal(2), "core.fsmonitor"@),
            ("GIT_CONFIG_VALUE_"@ + text::decimal(2), "false"@),
            ("GIT_CONFIG_KEY_"@ + text::decimal(3), "core.sshCommand"@),
            ("GIT_CONFIG_VALUE_"@ + text::decimal(3), "ssh"@),
        ],
        git_env(Profile::Helpers) == seq![
            ("GIT_TERMINAL_PROMPT"@, "0"@),
            ("GIT_CONFIG_COUNT"@, text::decimal(3)),
            ("GIT_CONFIG_KEY_"@ + text::decimal(0), "core.hooksPath"@),
            ("GIT_CONFIG_VALUE_"@ + text::decimal(0), "/dev/null"@),
            ("GIT_CONFIG_KEY_"@ + text::decimal(1), "core.fsmonitor"@),
            ("GIT_CONFIG_VALUE_"@ + text::decimal(1), "false"@),
            ("GIT_CONFIG_KEY_"@ + text::decimal(2), "core.sshCommand"@),
            ("GIT_CONFIG_VALUE_"@ + text::decimal(2), "ssh"@),
        ],
{
    lemma_numbered(overrides(Profile::Probe));
    lemma_numbered(overrides(Profile::Hardened));
    lemma_numbered(overrides(Profile::Helpers));
    let p = overrides(Profile::Probe);
    assert(p[0].0 == "core.hooksPath"@);
    let h = overrides(Profile::Hardened);
    assert(h[0].0 == "core.hooksPath"@ && h[1].0 == "credential.helper"@);
    assert(h[2].0 == "core.fsmonitor"@ && h[3].0 == "core.sshCommand"@);
    let c = overrides(Profile::Helpers);
    assert(c[0].0 == "core.hooksPath"@ && c[1].0 == "core.fsmonitor"@ && c[2].0
        == "core.sshCommand"@);
    assert(git_env(Profile::Probe) =~= seq![
        ("GIT_TERMINAL_PROMPT"@, "0"@),
        ("GIT_CONFIG_COUNT"@, text::decimal(1)),
        numbered(p)[0],
        numbered(p)[1],
    ]);
    assert(git_env(Profile::Hardened) =~= seq![
        ("GIT_TERMINAL_PROMPT"@, "0"@),
        ("GIT_CONFIG_COUNT"@, text::decimal(4)),
        numbered(h)[0],
        numbered(h)[1],
        numbered(h)[2],
        numbered(h)[3],
        numbered(h)[4],
        numbered(h)[5],
        numbered(h)[6],
        numbered(h)[7],
    ]);
    assert(git_env(Profile::Helpers) =~= seq![
        ("GIT_TERMINAL_PROMPT"@, "0"@),
        ("GIT_CONFIG_COUNT"@, text::decimal(3)),
        numbered(c)[0],
        numbered(c)[1],
        numbered(c)[2],
        numbered(c)[3],
        numbered(c)[4],
        numbered(c)[5],
    ]);
}

} // verus!
