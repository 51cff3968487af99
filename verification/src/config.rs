//! Settings, read from environment variables.
use vstd::prelude::*;
use vstd::string::*;

use crate::text;
use crate::text::{chars_of, comma_list, copy_texts, debug_string, eq_ignore_ascii_case,
    parse_unsigned, trim};
use crate::text_laws;

verus! {

/// Workers when nothing else is asked for.
pub const DEFAULT_WORKERS: usize = 5;

/// The most workers there can be.
pub const MAX_WORKERS: usize = 256;

/// Reflog cutoff when nothing else is asked for.
pub const DEFAULT_REFLOG_EXPIRE: &'static str = "30.days.ago";

/// Seconds between two cycles of the daemon when nothing else is asked for.
pub const DEFAULT_INTERVAL_SECS: u64 = 86400;

/// Why an environment variable has no usable value.
#[derive(Debug, Clone, Copy, PartialEq, Eq, Structural)]
pub enum VarError {
    /// The variable is not set.
    NotPresent,
    /// The value is not valid Unicode.
    NotUnicode,
}

/// A number of workers: at least one, at most `MAX_WORKERS`.
#[derive(Debug, Clone, Copy, PartialEq, Eq, Structural)]
pub struct WorkerCount {
    n: usize,
}

impl WorkerCount {
    #[verifier::type_invariant]
    spec fn in_range(self) -> bool {
        1 <= self.n <= MAX_WORKERS
    }

    /// The number.
    pub closed spec fn spec_get(self) -> usize {
        self.n
    }

    /// `n` workers, or as many as there can be.
    fn clamped(n: u64) -> (r: WorkerCount)
        requires
            n >= 1,
        ensures
            r.spec_get() == (if n <= MAX_WORKERS { n as int } else { MAX_WORKERS as int }),
    {
        if n <= MAX_WORKERS as u64 {
            WorkerCount { n: n as usize }
        } else {
            WorkerCount { n: MAX_WORKERS }
        }
    }

    /// The number, at least one and at most `MAX_WORKERS`.
    pub fn get(self) -> (n: usize)
        ensures
            n == self.spec_get(),
            1 <= n <= MAX_WORKERS,
    {
        proof {
            use_type_invariant(&self);
        }
        self.n
    }
}

// ── values of variables ──────────────────────────────────────────────────────

/// Whether a set variable switches something on: it says "true" in any case,
/// with any white space around it.
pub open spec fn says_true(v: Seq<char>) -> bool {
    text::same_ignoring_case(text::trimmed(v), "true"@)
}

/// Whether `c` may stand in a reflog cutoff.
pub open spec fn expire_char(c: char) -> bool {
    'a' <= c <= 'z' || 'A' <= c <= 'Z' || '0' <= c <= '9' || c == '.' || c == '-' || c == ' '
}

/// Whether `v` is an acceptable reflog cutoff. "now" and "all" would expire
/// every entry at once.
pub open spec fn safe_expire(v: Seq<char>) -> bool {
    let t = text::trimmed(v);
    ||| text::same_ignoring_case(t, "never"@)
    ||| {
        &&& !text::same_ignoring_case(t, "now"@)
        &&& !text::same_ignoring_case(t, "all"@)
        &&& forall|i: int| 0 <= i < t.len() ==> expire_char(#[trigger] t[i])
    }
}

/// Whether `v` is an acceptable reflog cutoff.
pub fn is_valid_reflog_expire(v: &str) -> (r: bool)
    ensures
        r == safe_expire(v@),
{
    let t = trim(v);
    if eq_ignore_ascii_case(t, "never") {
        return true;
    }
    if eq_ignore_ascii_case(t, "now") || eq_ignore_ascii_case(t, "all") {
        return false;
    }
    let cs = chars_of(t);
    for i in 0..cs.len()
        invariant
            t@ == text::trimmed(v@),
            !text::same_ignoring_case(t@, "never"@),
            cs@ == t@,
            forall|j: int| 0 <= j < i ==> expire_char(#[trigger] t@[j]),
    {
        let c = cs[i];
        if !(('a' <= c && c <= 'z') || ('A' <= c && c <= 'Z') || ('0' <= c && c <= '9') || c == '.'
            || c == '-' || c == ' ') {
            assert(!expire_char(t@[i as int]));
            return false;
        }
    }
    true
}

/// The warning about a reflog cutoff, given in quotes, that is not acceptable.
pub open spec fn expire_rejected(shown: Seq<char>) -> Seq<char> {
    "[git-bulk-clean] warning: MAINTENANCE_REFLOG_EXPIRE "@ + shown
        + " rejected (dangerous value), using default"@
}

/// The warning about a reflog cutoff, given in quotes, that is not acceptable.
pub fn expire_rejected_text(shown: &str) -> (r: String)
    ensures
        r@ == expire_rejected(shown@),
        r@ == "[git-bulk-clean] warning: MAINTENANCE_REFLOG_EXPIRE "@ + shown@
            + " rejected (dangerous value), using default"@,
{
    let mut r = "[git-bulk-clean] warning: MAINTENANCE_REFLOG_EXPIRE ".to_string();
    r.append(shown);
    r.append(" rejected (dangerous value), using default");
    r
}

/// The warning about a reflog cutoff that is set but not acceptable.
pub open spec fn expire_warning(v: Option<Seq<char>>) -> Option<Seq<char>> {
    match v {
        Some(t) => if safe_expire(t) {
            None
        } else {
            Some(expire_rejected(text::debug_text(t)))
        },
        None => None,
    }
}

/// The reflog cutoff in force: the one that is set, if it is acceptable.
pub open spec fn expire_in_force(v: Option<Seq<char>>) -> Seq<char> {
    match v {
        Some(t) => if safe_expire(t) {
            t
        } else {
            DEFAULT_REFLOG_EXPIRE@
        },
        None => DEFAULT_REFLOG_EXPIRE@,
    }
}

/// The interval in force: the number of seconds that is set, if it is one and
/// is not zero.
pub open spec fn interval_in_force(v: Option<Seq<char>>) -> nat {
    match v {
        Some(t) => match text::unsigned(text::trimmed(t), u64::MAX as nat) {
            Some(n) => if n > 0 {
                n
            } else {
                DEFAULT_INTERVAL_SECS as nat
            },
            None => DEFAULT_INTERVAL_SECS as nat,
        },
        None => DEFAULT_INTERVAL_SECS as nat,
    }
}

/// The number of workers in force: the one that is set, up to the maximum, if
/// it is a number and not zero.
pub open spec fn workers_in_force(v: Option<Seq<char>>) -> nat {
    match v {
        Some(t) => match text::unsigned(text::trimmed(t), usize::MAX as nat) {
            Some(n) => if n == 0 {
                DEFAULT_WORKERS as nat
            } else if n <= MAX_WORKERS {
                n
            } else {
                MAX_WORKERS as nat
            },
            None => DEFAULT_WORKERS as nat,
        },
        None => DEFAULT_WORKERS as nat,
    }
}

/// The items of a list variable; an unset one has none.
pub open spec fn list_in_force(v: Option<Seq<char>>) -> Seq<Seq<char>> {
    match v {
        Some(t) => text::comma_items(t),
        None => text::comma_items(""@),
    }
}

/// The switch in force: off unless the variable says "true".
pub open spec fn switch_in_force(v: Option<Seq<char>>, default: bool) -> bool {
    match v {
        Some(t) => says_true(t),
        None => default,
    }
}

/// The values of the variables that the tool reads; nothing stands for one
/// that is not set or is not valid Unicode.
#[derive(Debug)]
pub struct Vars {
    pub repos: Option<String>,
    pub ghq_enable: Option<String>,
    pub reflog_expire: Option<String>,
    pub aggressive: Option<String>,
    pub interval: Option<String>,
    pub workers: Option<String>,
    pub skip_submodules: Option<String>,
    pub skip_lfs: Option<String>,
    pub prune_tags: Option<String>,
    pub prune_branches: Option<String>,
    pub prune_worktrees: Option<String>,
    pub credential_helpers: Option<String>,
    pub protected_branches: Option<String>,
}

/// Whether `v` is what a call of `get` with `key` may give.
pub open spec fn reads<F: Fn(&str) -> Result<String, VarError>>(
    get: F,
    key: &str,
    v: Option<String>,
) -> bool {
    exists|r: Result<String, VarError>| #[trigger]
        call_ensures(get, (key,), r) && v == (match r {
            Ok(t) => Some(t),
            Err(_) => None,
        })
}

fn read<F: Fn(&str) -> Result<String, VarError>>(get: &F, key: &str) -> (v: Option<String>)
    requires
        call_requires(*get, (key,)),
    ensures
        reads(*get, key, v),
{
    let r = get(key);
    assert(call_ensures(*get, (key,), r));
    match r {
        Ok(t) => Some(t),
        Err(_) => None,
    }
}

impl Vars {
    /// Whether every value is what a call of `get` with the variable's name may
    /// give.
    pub open spec fn read_by<F: Fn(&str) -> Result<String, VarError>>(self, get: F) -> bool {
        &&& reads(get, "MAINTENANCE_REPOS", self.repos)
        &&& reads(get, "MAINTENANCE_GHQ_ENABLE", self.ghq_enable)
        &&& reads(get, "MAINTENANCE_REFLOG_EXPIRE", self.reflog_expire)
        &&& reads(get, "MAINTENANCE_AGGRESSIVE", self.aggressive)
        &&& reads(get, "MAINTENANCE_INTERVAL", self.interval)
        &&& reads(get, "MAINTENANCE_WORKERS", self.workers)
        &&& reads(get, "MAINTENANCE_SKIP_SUBMODULES", self.skip_submodules)
        &&& reads(get, "MAINTENANCE_SKIP_LFS", self.skip_lfs)
        &&& reads(get, "MAINTENANCE_PRUNE_TAGS", self.prune_tags)
        &&& reads(get, "MAINTENANCE_PRUNE_BRANCHES", self.prune_branches)
        &&& reads(get, "MAINTENANCE_PRUNE_WORKTREES", self.prune_worktrees)
        &&& reads(get, "MAINTENANCE_CREDENTIAL_HELPERS", self.credential_helpers)
        &&& reads(get, "MAINTENANCE_PROTECTED_BRANCHES", self.protected_branches)
    }

    /// Reads each variable once with `get`.
    pub fn read<F: Fn(&str) -> Result<String, VarError>>(get: F) -> (vars: Vars)
        requires
            forall|key: &str| call_requires(get, (key,)),
        ensures
            vars.read_by(get),
    {
        Vars {
            repos: read(&get, "MAINTENANCE_REPOS"),
            ghq_enable: read(&get, "MAINTENANCE_GHQ_ENABLE"),
            reflog_expire: read(&get, "MAINTENANCE_REFLOG_EXPIRE"),
            aggressive: read(&get, "MAINTENANCE_AGGRESSIVE"),
            interval: read(&get, "MAINTENANCE_INTERVAL"),
            workers: read(&get, "MAINTENANCE_WORKERS"),
            skip_submodules: read(&get, "MAINTENANCE_SKIP_SUBMODULES"),
            skip_lfs: read(&get, "MAINTENANCE_SKIP_LFS"),
            prune_tags: read(&get, "MAINTENANCE_PRUNE_TAGS"),
            prune_branches: read(&get, "MAINTENANCE_PRUNE_BRANCHES"),
            prune_worktrees: read(&get, "MAINTENANCE_PRUNE_WORKTREES"),
            credential_helpers: read(&get, "MAINTENANCE_CREDENTIAL_HELPERS"),
            protected_branches: read(&get, "MAINTENANCE_PROTECTED_BRANCHES"),
        }
    }

    /// The warning to print about these values, if there is one.
    pub fn warning(&self) -> (r: Option<String>)
        ensures
            text::opt_text(r) == expire_warning(text::opt_text(self.reflog_expire)),
    {
        match &self.reflog_expire {
            Some(v) => {
                if is_valid_reflog_expire(v.as_str()) {
                    return None;
                }
                Some(expire_rejected_text(debug_string(v.as_str()).as_str()))
            },
            None => None,
        }
    }
}

/// Whether the variable `key`, looked up with `get`, says "true"; `default` if
/// it has no usable value.
pub fn bool_var<F: Fn(&str) -> Result<String, VarError>>(get: &F, key: &str, default: bool) -> (r:
    bool)
    requires
        call_requires(*get, (key,)),
    ensures
        exists|v: Option<String>| #[trigger]
            reads(*get, key, v) && r == switch_in_force(text::opt_text(v), default),
{
    let v = read(get, key);
    let r = switch(&v, default);
    assert(reads(*get, key, v));
    r
}

fn switch(v: &Option<String>, default: bool) -> (r: bool)
    ensures
        r == switch_in_force(text::opt_text(*v), default),
{
    match v {
        Some(t) => eq_ignore_ascii_case(trim(t.as_str()), "true"),
        None => default,
    }
}

fn list(v: &Option<String>) -> (r: Vec<String>)
    ensures
        text::texts(r@) == list_in_force(text::opt_text(*v)),
{
    match v {
        Some(t) => comma_list(t.as_str()),
        None => comma_list(""),
    }
}

fn interval(v: &Option<String>) -> (r: u64)
    ensures
        r == interval_in_force(text::opt_text(*v)),
{
    match v {
        Some(t) => match parse_unsigned(trim(t.as_str()), u64::MAX) {
            Some(n) => if n > 0 {
                n
            } else {
                DEFAULT_INTERVAL_SECS
            },
            None => DEFAULT_INTERVAL_SECS,
        },
        None => DEFAULT_INTERVAL_SECS,
    }
}

fn workers(v: &Option<String>) -> (r: WorkerCount)
    ensures
        r.spec_get() == workers_in_force(text::opt_text(*v)),
{
    match v {
        Some(t) => match parse_unsigned(trim(t.as_str()), usize::MAX as u64) {
            Some(n) => if n > 0 {
                WorkerCount::clamped(n)
            } else {
                WorkerCount::clamped(DEFAULT_WORKERS as u64)
            },
            None => WorkerCount::clamped(DEFAULT_WORKERS as u64),
        },
        None => WorkerCount::clamped(DEFAULT_WORKERS as u64),
    }
}

fn expire(v: &Option<String>) -> (r: String)
    ensures
        r@ == expire_in_force(text::opt_text(*v)),
{
    match v {
        Some(t) => if is_valid_reflog_expire(t.as_str()) {
            t.clone()
        } else {
            DEFAULT_REFLOG_EXPIRE.to_string()
        },
        None => DEFAULT_REFLOG_EXPIRE.to_string(),
    }
}

// ── configuration ────────────────────────────────────────────────────────────

/// The settings of the tool.
#[derive(Debug)]
pub struct Config {
    pub repos: Vec<String>,
    pub ghq_enable: bool,
    pub reflog_expire: String,
    pub aggressive: bool,
    pub interval_secs: u64,
    pub num_workers: WorkerCount,
    pub skip_submodules: bool,
    pub skip_lfs: bool,
    pub prune_tags: bool,
    pub prune_branches: bool,
    pub prune_worktrees: bool,
    pub credential_helpers: bool,
    pub protected_branches: Vec<String>,
}

/// The texts and numbers of a `Config`.
pub struct ConfigView {
    pub repos: Seq<Seq<char>>,
    pub ghq_enable: bool,
    pub interval_secs: nat,
    pub num_workers: nat,
    pub clean: OptionsView,
}

impl View for Config {
    type V = ConfigView;

    open spec fn view(&self) -> ConfigView {
        ConfigView {
            repos: text::texts(self.repos@),
            ghq_enable: self.ghq_enable,
            interval_secs: self.interval_secs as nat,
            num_workers: self.num_workers.spec_get() as nat,
            clean: OptionsView {
                reflog_expire: self.reflog_expire@,
                aggressive: self.aggressive,
                skip_submodules: self.skip_submodules,
                skip_lfs: self.skip_lfs,
                prune_tags: self.prune_tags,
                prune_branches: self.prune_branches,
                prune_worktrees: self.prune_worktrees,
                credential_helpers: self.credential_helpers,
                protected_branches: text::texts(self.protected_branches@),
            },
        }
    }
}

/// The settings that the values of the variables give.
pub open spec fn configured(v: Vars) -> ConfigView {
    ConfigView {
        repos: list_in_force(text::opt_text(v.repos)),
        ghq_enable: switch_in_force(text::opt_text(v.ghq_enable), false),
        interval_secs: interval_in_force(text::opt_text(v.interval)),
        num_workers: workers_in_force(text::opt_text(v.workers)),
        clean: OptionsView {
            reflog_expire: expire_in_force(text::opt_text(v.reflog_expire)),
            aggressive: switch_in_force(text::opt_text(v.aggressive), false),
            skip_submodules: switch_in_force(text::opt_text(v.skip_submodules), false),
            skip_lfs: switch_in_force(text::opt_text(v.skip_lfs), false),
            prune_tags: switch_in_force(text::opt_text(v.prune_tags), false),
            prune_branches: switch_in_force(text::opt_text(v.prune_branches), false),
            prune_worktrees: switch_in_force(text::opt_text(v.prune_worktrees), false),
            credential_helpers: switch_in_force(text::opt_text(v.credential_helpers), false),
            protected_branches: list_in_force(text::opt_text(v.protected_branches)),
        },
    }
}

impl Config {
    /// The settings that the values of the variables give.
    pub fn from_values(v: &Vars) -> (cfg: Config)
        ensures
            cfg@ == configured(*v),
            text::texts(cfg.repos@) == configured(*v).repos,
            cfg.ghq_enable == configured(*v).ghq_enable,
            cfg.reflog_expire@ == configured(*v).clean.reflog_expire,
            cfg.interval_secs == configured(*v).interval_secs,
            cfg.num_workers.spec_get() == configured(*v).num_workers,
            text::texts(cfg.protected_branches@) == configured(*v).clean.protected_branches,
            cfg.aggressive == configured(*v).clean.aggressive,
            cfg.skip_submodules == configured(*v).clean.skip_submodules,
            cfg.skip_lfs == configured(*v).clean.skip_lfs,
            cfg.prune_tags == configured(*v).clean.prune_tags,
            cfg.prune_branches == configured(*v).clean.prune_branches,
            cfg.prune_worktrees == configured(*v).clean.prune_worktrees,
            cfg.credential_helpers == configured(*v).clean.credential_helpers,
    {
        Config {
            repos: list(&v.repos),
            ghq_enable: switch(&v.ghq_enable, false),
            reflog_expire: expire(&v.reflog_expire),
            aggressive: switch(&v.aggressive, false),
            interval_secs: interval(&v.interval),
            num_workers: workers(&v.workers),
            skip_submodules: switch(&v.skip_submodules, false),
            skip_lfs: switch(&v.skip_lfs, false),
            prune_tags: switch(&v.prune_tags, false),
            prune_branches: switch(&v.prune_branches, false),
            prune_worktrees: switch(&v.prune_worktrees, false),
            credential_helpers: switch(&v.credential_helpers, false),
            protected_branches: list(&v.protected_branches),
        }
    }

    /// The settings that variables looked up with `get` give. Each variable is
    /// looked up once.
    pub fn from_vars<F: Fn(&str) -> Result<String, VarError>>(get: F) -> (cfg: Config)
        requires
            forall|key: &str| call_requires(get, (key,)),
        ensures
            exists|vars: Vars| #[trigger] vars.read_by(get) && cfg@ == configured(vars),
    {
        let vars = Vars::read(get);
        let cfg = Config::from_values(&vars);
        assert(vars.read_by(get));
        cfg
    }
}

/// What the cleanup of a repository needs of the settings.
#[derive(Debug)]
pub struct CleanOptions {
    pub reflog_expire: String,
    pub aggressive: bool,
    pub skip_submodules: bool,
    pub skip_lfs: bool,
    pub prune_tags: bool,
    pub prune_branches: bool,
    pub prune_worktrees: bool,
    pub credential_helpers: bool,
    pub protected_branches: Vec<String>,
}

/// The texts of a `CleanOptions`.
pub struct OptionsView {
    pub reflog_expire: Seq<char>,
    pub aggressive: bool,
    pub skip_submodules: bool,
    pub skip_lfs: bool,
    pub prune_tags: bool,
    pub prune_branches: bool,
    pub prune_worktrees: bool,
    pub credential_helpers: bool,
    pub protected_branches: Seq<Seq<char>>,
}

impl View for CleanOptions {
    type V = OptionsView;

    open spec fn view(&self) -> OptionsView {
        OptionsView {
            reflog_expire: self.reflog_expire@,
            aggressive: self.aggressive,
            skip_submodules: self.skip_submodules,
            skip_lfs: self.skip_lfs,
            prune_tags: self.prune_tags,
            prune_branches: self.prune_branches,
            prune_worktrees: self.prune_worktrees,
            credential_helpers: self.credential_helpers,
            protected_branches: text::texts(self.protected_branches@),
        }
    }
}

impl CleanOptions {
    /// The part of `cfg` that the cleanup of a repository needs.
    pub fn from_config(cfg: &Config) -> (o: CleanOptions)
        ensures
            o@ == cfg@.clean,
            o.reflog_expire@ == cfg.reflog_expire@,
            text::texts(o.protected_branches@) == text::texts(cfg.protected_branches@),
            o.aggressive == cfg.aggressive,
            o.skip_submodules == cfg.skip_submodules,
            o.skip_lfs == cfg.skip_lfs,
            o.prune_tags == cfg.prune_tags,
            o.prune_branches == cfg.prune_branches,
            o.prune_worktrees == cfg.prune_worktrees,
            o.credential_helpers == cfg.credential_helpers,
    {
        CleanOptions {
            reflog_expire: cfg.reflog_expire.clone(),
            aggressive: cfg.aggressive,
            skip_submodules: cfg.skip_submodules,
            skip_lfs: cfg.skip_lfs,
            prune_tags: cfg.prune_tags,
            prune_branches: cfg.prune_branches,
            prune_worktrees: cfg.prune_worktrees,
            credential_helpers: cfg.credential_helpers,
            protected_branches: copy_texts(&cfg.protected_branches),
        }
    }
}

// ── laws ─────────────────────────────────────────────────────────────────────

/// Whatever the variables hold, the settings can be run with: the daemon
/// sleeps between cycles, there is a worker and there are not too many, the
/// reflog cutoff is acceptable, and no repository path and no protected branch
/// is empty.
pub proof fn settings_are_always_usable(v: Vars)
    ensures
        configured(v).interval_secs > 0,
        1 <= configured(v).num_workers <= MAX_WORKERS,
        safe_expire(configured(v).clean.reflog_expire),
        forall|i: int|
            0 <= i < configured(v).repos.len() ==> (#[trigger] configured(v).repos[i]).len() > 0,
        forall|i: int|
            0 <= i < configured(v).clean.protected_branches.len() ==> (
            #[trigger] configured(v).clean.protected_branches[i]).len() > 0,
{
    assert(safe_expire(DEFAULT_REFLOG_EXPIRE@)) by {
        lemma_default_expire_is_safe();
    }
    lemma_list_items_nonempty(text::opt_text(v.repos));
    lemma_list_items_nonempty(text::opt_text(v.protected_branches));
}

proof fn lemma_default_expire_is_safe()
    ensures
        safe_expire(DEFAULT_REFLOG_EXPIRE@),
{
    reveal_strlit("30.days.ago");
    reveal_strlit("now");
    reveal_strlit("all");
    let d = DEFAULT_REFLOG_EXPIRE@;
    assert(text::trim_start(d) == d);
    assert(text::trim_end(d) == d);
}

proof fn lemma_list_items_nonempty(v: Option<Seq<char>>)
    ensures
        forall|i: int|
            0 <= i < list_in_force(v).len() ==> (#[trigger] list_in_force(v)[i]).len() > 0,
{
    let t = match v {
        Some(t) => t,
        None => ""@,
    };
    let all = text::pieces(t, ',').map_values(|p: Seq<char>| text::trimmed(p));
    let keep = |p: Seq<char>| p.len() > 0;
    assert forall|i: int| 0 <= i < list_in_force(v).len() implies (
    #[trigger] list_in_force(v)[i]).len() > 0 by {
        all.lemma_filter_pred(keep, i);
    }
}

/// Every switch is off when no variable is set, and no repository is listed.
pub proof fn everything_is_off_by_default(v: Vars)
    requires
        v.repos is None && v.ghq_enable is None && v.reflog_expire is None && v.aggressive is None
            && v.interval is None && v.workers is None && v.skip_submodules is None
            && v.skip_lfs is None && v.prune_tags is None && v.prune_branches is None
            && v.prune_worktrees is None && v.credential_helpers is None
            && v.protected_branches is None,
    ensures
        configured(v) == (ConfigView {
            repos: Seq::<Seq<char>>::empty(),
            ghq_enable: false,
            interval_secs: DEFAULT_INTERVAL_SECS as nat,
            num_workers: DEFAULT_WORKERS as nat,
            clean: OptionsView {
                reflog_expire: DEFAULT_REFLOG_EXPIRE@,
                aggressive: false,
                skip_submodules: false,
                skip_lfs: false,
                prune_tags: false,
                prune_branches: false,
                prune_worktrees: false,
                credential_helpers: false,
                protected_branches: Seq::<Seq<char>>::empty(),
            },
        }),
{
    reveal_strlit("");
    assert(""@ =~= Seq::<char>::empty());
    let all = text::pieces(""@, ',').map_values(|p: Seq<char>| text::trimmed(p));
    let keep = |p: Seq<char>| p.len() > 0;
    assert(text::trimmed(Seq::<char>::empty()) == Seq::<char>::empty());
    let none = Seq::<Seq<char>>::empty();
    assert(all =~= none.push(Seq::<char>::empty()));
    none.lemma_filter_push(Seq::<char>::empty(), keep);
    assert(none.filter(keep) =~= none);
}

/// Whether a text spells "true", in any case.
pub open spec fn spells_true(s: Seq<char>) -> bool {
    &&& s.len() == 4
    &&& text_laws::same_letter(s[0], 't')
    &&& text_laws::same_letter(s[1], 'r')
    &&& text_laws::same_letter(s[2], 'u')
    &&& text_laws::same_letter(s[3], 'e')
}

/// Whether a variable is set to the word "true", in any case and with any
/// white space around it.
pub open spec fn is_on(v: Option<String>) -> bool {
    v matches Some(t) && exists|s: Seq<char>| #[trigger] text_laws::pads(t@, s) && spells_true(s)
}

proof fn lemma_padded(t: Seq<char>, s: Seq<char>)
    ensures
        text_laws::pads(t, s) <==> s == text::trimmed(t),
{
    if text_laws::pads(t, s) {
        let (pre, post) = choose|pre: Seq<char>, post: Seq<char>|
            #![trigger text_laws::blank(pre), text_laws::blank(post)]
            text_laws::blank(pre) && text_laws::blank(post) && t == pre + s + post;
        text_laws::trimming_takes_the_ends_off(pre, s, post);
    }
    let ends = text_laws::every_text_has_a_middle(t);
    if s == text::trimmed(t) {
        assert(text_laws::blank(ends.0) && text_laws::blank(ends.1));
    }
}

proof fn lemma_is_on(v: Option<String>)
    ensures
        switch_in_force(text::opt_text(v), false) == is_on(v),
{
    if let Some(t) = v {
        let s = text::trimmed(t@);
        lemma_padded(t@, s);
        assert forall|x: Seq<char>| #[trigger] text_laws::pads(t@, x) implies x == s by {
            lemma_padded(t@, x);
        }
        reveal_strlit("true");
        text_laws::case_is_all_that_is_ignored(s, "true"@);
        if spells_true(s) {
            assert forall|i: int| 0 <= i < s.len() implies text_laws::same_letter(
                #[trigger] s[i],
                "true"@[i],
            ) by {}
        }
        if text::same_ignoring_case(s, "true"@) {
            assert(text_laws::same_letter(s[0], "true"@[0]));
            assert(text_laws::same_letter(s[1], "true"@[1]));
            assert(text_laws::same_letter(s[2], "true"@[2]));
            assert(text_laws::same_letter(s[3], "true"@[3]));
        }
    }
}

/// Each switch is on just if its own variable is set to "true".
pub proof fn switches_follow_their_variables(v: Vars)
    ensures
        configured(v).ghq_enable <==> is_on(v.ghq_enable),
        configured(v).clean.aggressive <==> is_on(v.aggressive),
        configured(v).clean.skip_submodules <==> is_on(v.skip_submodules),
        configured(v).clean.skip_lfs <==> is_on(v.skip_lfs),
        configured(v).clean.prune_tags <==> is_on(v.prune_tags),
        configured(v).clean.prune_branches <==> is_on(v.prune_branches),
        configured(v).clean.prune_worktrees <==> is_on(v.prune_worktrees),
        configured(v).clean.credential_helpers <==> is_on(v.credential_helpers),
{
    lemma_is_on(v.ghq_enable);
    lemma_is_on(v.aggressive);
    lemma_is_on(v.skip_submodules);
    lemma_is_on(v.skip_lfs);
    lemma_is_on(v.prune_tags);
    lemma_is_on(v.prune_branches);
    lemma_is_on(v.prune_worktrees);
    lemma_is_on(v.credential_helpers);
}

/// A switch that is not set is as the default says; one that is set does not
/// depend on the default.
pub proof fn defaults_stand_in_for_unset_switches(v: Option<String>, default: bool)
    ensures
        switch_in_force(text::opt_text(v), default) == (if v is None {
            default
        } else {
            is_on(v)
        }),
{
    lemma_is_on(v);
}

proof fn lemma_decimal_is_tight(n: nat)
    ensures
        text_laws::tight(text::decimal(n)),
        text::decimal(n).len() > 0,
{
    text::lemma_decimal_digits(n);
    let d = text::decimal(n);
    assert(text::is_digit(d[0]));
    assert(text::is_digit(d[d.len() - 1]));
}

/// The interval is the number of seconds that is set, whatever it is, as long
/// as it is one. White space around it does not count.
pub proof fn intervals_are_taken_as_set(v: Vars, n: nat, pre: Seq<char>, post: Seq<char>)
    requires
        0 < n <= u64::MAX,
        text_laws::blank(pre),
        text_laws::blank(post),
        v.interval matches Some(t) && t@ == pre + text::decimal(n) + post,
    ensures
        configured(v).interval_secs == n,
{
    lemma_decimal_is_tight(n);
    text_laws::trimming_takes_the_ends_off(pre, text::decimal(n), post);
    text::decimal_reads_back(n, u64::MAX as nat);
}

/// The interval is a day if none is set, or something that is no number of
/// seconds, or zero.
pub proof fn intervals_default_to_a_day(v: Vars, s: Seq<char>)
    requires
        v.interval matches Some(t) ==> text_laws::pads(t@, s) && (text::unsigned(
            s,
            u64::MAX as nat,
        ) is None || text::unsigned(s, u64::MAX as nat) == Some(0nat)),
    ensures
        configured(v).interval_secs == 24 * 60 * 60,
{
    if let Some(t) = v.interval {
        lemma_padded(t@, s);
    }
}

/// The number of workers is the one that is set, up to 256.
pub proof fn workers_are_taken_as_set(v: Vars, n: nat, pre: Seq<char>, post: Seq<char>)
    requires
        0 < n <= usize::MAX,
        text_laws::blank(pre),
        text_laws::blank(post),
        v.workers matches Some(t) && t@ == pre + text::decimal(n) + post,
    ensures
        configured(v).num_workers == (if n <= 256 {
            n
        } else {
            256
        }),
{
    lemma_decimal_is_tight(n);
    text_laws::trimming_takes_the_ends_off(pre, text::decimal(n), post);
    text::decimal_reads_back(n, usize::MAX as nat);
}

/// There are five workers if no number of them is set, or something that is no
/// number, or zero.
pub proof fn workers_default_to_five(v: Vars, s: Seq<char>)
    requires
        v.workers matches Some(t) ==> text_laws::pads(t@, s) && (text::unsigned(
            s,
            usize::MAX as nat,
        ) is None || text::unsigned(s, usize::MAX as nat) == Some(0nat)),
    ensures
        configured(v).num_workers == 5,
{
    if let Some(t) = v.workers {
        lemma_padded(t@, s);
    }
}

/// The repositories and the protected branches are the items of their own
/// variables.
pub proof fn lists_follow_their_variables(v: Vars, parts: Seq<Seq<char>>, items: Seq<Seq<char>>)
    requires
        parts.len() > 0,
        parts.len() == items.len(),
        forall|i: int| 0 <= i < parts.len() ==> text_laws::lacks(#[trigger] parts[i], ','),
        forall|i: int| 0 <= i < parts.len() ==> text_laws::pads(#[trigger] parts[i], items[i]),
    ensures
        (v.repos matches Some(t) && t@ == text::joined(parts, seq![','])) ==> configured(v).repos
            == items.filter(|x: Seq<char>| x.len() > 0),
        (v.protected_branches matches Some(t) && t@ == text::joined(parts, seq![',']))
            ==> configured(v).clean.protected_branches == items.filter(
            |x: Seq<char>| x.len() > 0,
        ),
{
    text_laws::comma_lists_are_read_item_by_item(parts, items);
}

/// A list that is not set is empty.
pub proof fn unset_lists_are_empty(v: Vars)
    ensures
        v.repos is None ==> configured(v).repos.len() == 0,
        v.protected_branches is None ==> configured(v).clean.protected_branches.len() == 0,
{
    reveal_strlit("");
    let none = Seq::<char>::empty();
    assert(""@ =~= none);
    assert(text::joined(seq![none], seq![',']) == none);
    assert(text_laws::blank(none));
    assert(none =~= none + none + none);
    text_laws::comma_lists_are_read_item_by_item(seq![none], seq![none]);
    let keep = |x: Seq<char>| x.len() > 0;
    let nothing = Seq::<Seq<char>>::empty();
    nothing.lemma_filter_push(none, keep);
    assert(nothing.push(none) =~= seq![none]);
    assert(nothing.filter(keep) =~= nothing);
}

/// Whether a text can be a reflog cutoff that does no harm: it is made of ASCII
/// letters and digits, dots, hyphens and spaces, and is not one of the two
/// words that expire everything at once.
pub open spec fn is_harmless(s: Seq<char>) -> bool {
    &&& forall|i: int|
        0 <= i < s.len() ==> ('a' <= #[trigger] s[i] <= 'z' || 'A' <= s[i] <= 'Z' || '0' <= s[i]
            <= '9' || s[i] == '.' || s[i] == '-' || s[i] == ' ')
    &&& !(s.len() == 3 && text_laws::same_letter(s[0], 'n') && text_laws::same_letter(s[1], 'o')
        && text_laws::same_letter(s[2], 'w'))
    &&& !(s.len() == 3 && text_laws::same_letter(s[0], 'a') && text_laws::same_letter(s[1], 'l')
        && text_laws::same_letter(s[2], 'l'))
}

proof fn lemma_three(s: Seq<char>, w: Seq<char>)
    requires
        w.len() == 3,
    ensures
        text::same_ignoring_case(s, w) <==> s.len() == 3 && text_laws::same_letter(s[0], w[0])
            && text_laws::same_letter(s[1], w[1]) && text_laws::same_letter(s[2], w[2]),
{
    text_laws::case_is_all_that_is_ignored(s, w);
}

/// A cutoff is acceptable just if it does no harm, whatever white space is
/// around it.
pub proof fn harmless_cutoffs_are_accepted(t: Seq<char>, s: Seq<char>)
    requires
        text_laws::pads(t, s),
    ensures
        safe_expire(t) <==> is_harmless(s),
{
    lemma_padded(t, s);
    reveal_strlit("now");
    reveal_strlit("all");
    reveal_strlit("never");
    lemma_three(s, "now"@);
    lemma_three(s, "all"@);
    text_laws::case_is_all_that_is_ignored(s, "never"@);
    if text::same_ignoring_case(s, "never"@) {
        assert forall|i: int| 0 <= i < s.len() implies expire_char(#[trigger] s[i]) by {
            assert(text_laws::same_letter(s[i], "never"@[i]));
        }
    }
    if is_harmless(s) {
        assert forall|i: int| 0 <= i < s.len() implies expire_char(#[trigger] s[i]) by {}
    }
    if safe_expire(t) {
        assert forall|i: int| 0 <= i < s.len() implies ('a' <= #[trigger] s[i] <= 'z' || 'A' <= s[i]
            <= 'Z' || '0' <= s[i] <= '9' || s[i] == '.' || s[i] == '-' || s[i] == ' ') by {
            assert(expire_char(s[i]));
        }
    }
}

/// The cutoff that is set is used as it stands if it does no harm; otherwise,
/// and if none is set, the one of thirty days is, and there is a warning just
/// where one was set.
pub proof fn cutoffs_are_taken_as_set(v: Vars, s: Seq<char>)
    requires
        v.reflog_expire matches Some(t) ==> text_laws::pads(t@, s),
    ensures
        configured(v).clean.reflog_expire == (match v.reflog_expire {
            Some(t) => if is_harmless(s) {
                t@
            } else {
                "30.days.ago"@
            },
            None => "30.days.ago"@,
        }),
        expire_warning(text::opt_text(v.reflog_expire)) is Some <==> v.reflog_expire is Some
            && !is_harmless(s),
{
    if let Some(t) = v.reflog_expire {
        harmless_cutoffs_are_accepted(t@, s);
    }
}

/// A number counts however it is written: with zeros or a plus sign before it,
/// too.
pub proof fn numbers_count_however_written(v: Vars, s: Seq<char>, n: nat)
    requires
        n > 0,
    ensures
        (v.interval matches Some(t) && text_laws::pads(t@, s)) && text::unsigned(
            s,
            u64::MAX as nat,
        ) == Some(n) ==> configured(v).interval_secs == n,
        (v.workers matches Some(t) && text_laws::pads(t@, s)) && text::unsigned(
            s,
            usize::MAX as nat,
        ) == Some(n) ==> configured(v).num_workers == (if n <= 256 {
            n
        } else {
            256
        }),
{
    if let Some(t) = v.interval {
        lemma_padded(t@, s);
    }
    if let Some(t) = v.workers {
        lemma_padded(t@, s);
    }
}

/// Each setting is read from the variable of its name.
pub proof fn settings_are_read_by_name<F: Fn(&str) -> Result<String, VarError>>(vars: Vars, get: F)
    requires
        vars.read_by(get),
    ensures
        reads(get, "MAINTENANCE_REPOS", vars.repos),
        reads(get, "MAINTENANCE_GHQ_ENABLE", vars.ghq_enable),
        reads(get, "MAINTENANCE_REFLOG_EXPIRE", vars.reflog_expire),
        reads(get, "MAINTENANCE_AGGRESSIVE", vars.aggressive),
        reads(get, "MAINTENANCE_INTERVAL", vars.interval),
        reads(get, "MAINTENANCE_WORKERS", vars.workers),
        reads(get, "MAINTENANCE_SKIP_SUBMODULES", vars.skip_submodules),
        reads(get, "MAINTENANCE_SKIP_LFS", vars.skip_lfs),
        reads(get, "MAINTENANCE_PRUNE_TAGS", vars.prune_tags),
        reads(get, "MAINTENANCE_PRUNE_BRANCHES", vars.prune_branches),
        reads(get, "MAINTENANCE_PRUNE_WORKTREES", vars.prune_worktrees),
        reads(get, "MAINTENANCE_CREDENTIAL_HELPERS", vars.credential_helpers),
        reads(get, "MAINTENANCE_PROTECTED_BRANCHES", vars.protected_branches),
{
}

/// A variable has the value that the lookup gave, and none if the lookup gave
/// none.
pub proof fn lookups_are_taken_as_they_are<F: Fn(&str) -> Result<String, VarError>>(
    get: F,
    key: &str,
    t: String,
)
    ensures
        reads(get, key, Some(t)) <==> call_ensures(get, (key,), Ok::<String, VarError>(t)),
        reads(get, key, None) <==> call_ensures(
            get,
            (key,),
            Err::<String, VarError>(VarError::NotPresent),
        ) || call_ensures(get, (key,), Err::<String, VarError>(VarError::NotUnicode)),
{
    if reads(get, key, None) {
        let r = choose|r: Result<String, VarError>| #[trigger]
            call_ensures(get, (key,), r) && r is Err;
        match r {
            Err(VarError::NotPresent) => {},
            _ => {},
        }
    }
}

/// A cutoff that is not taken is warned about, and nothing else is.
pub proof fn rejected_cutoffs_are_warned_about(t: Seq<char>)
    ensures
        expire_warning(None) is None,
        safe_expire(t) ==> expire_warning(Some(t)) is None,
        !safe_expire(t) ==> expire_warning(Some(t)) == Some(
            "[git-bulk-clean] warning: MAINTENANCE_REFLOG_EXPIRE "@ + text::debug_text(t)
                + " rejected (dangerous value), using default"@,
        ),
{
}

} // verus!
