use std::collections::HashMap;

use git_bulk_clean::config::{
    bool_var, CleanOptions, Config, VarError, DEFAULT_INTERVAL_SECS, DEFAULT_REFLOG_EXPIRE,
    DEFAULT_WORKERS, MAX_WORKERS,
};

fn make_config(vars: &[(&str, &str)]) -> Config {
    let map: HashMap<&str, &str> = vars.iter().cloned().collect();
    Config::from_vars(|k: &str| {
        map.get(k)
            .map(|v| v.to_string())
            .ok_or(VarError::NotPresent)
    })
}

#[test]
fn config_defaults() {
    let cfg = make_config(&[]);
    assert!(cfg.repos.is_empty());
    assert!(!cfg.ghq_enable);
    assert_eq!(cfg.reflog_expire, DEFAULT_REFLOG_EXPIRE);
    assert!(!cfg.aggressive);
    assert_eq!(cfg.interval_secs, DEFAULT_INTERVAL_SECS);
    assert_eq!(cfg.num_workers.get(), DEFAULT_WORKERS);
    assert!(!cfg.skip_submodules);
    assert!(!cfg.skip_lfs);
}

#[test]
fn config_all_vars() {
    let cfg = make_config(&[
        ("MAINTENANCE_REPOS", "/a, /b , /c"),
        ("MAINTENANCE_GHQ_ENABLE", "true"),
        ("MAINTENANCE_REFLOG_EXPIRE", "7.days.ago"),
        ("MAINTENANCE_AGGRESSIVE", "true"),
        ("MAINTENANCE_INTERVAL", "3600"),
        ("MAINTENANCE_WORKERS", "8"),
        ("MAINTENANCE_SKIP_SUBMODULES", "true"),
        ("MAINTENANCE_SKIP_LFS", "true"),
        ("MAINTENANCE_PRUNE_BRANCHES", "true"),
        ("MAINTENANCE_PROTECTED_BRANCHES", "main,release"),
    ]);
    assert_eq!(cfg.repos, ["/a", "/b", "/c"]);
    assert!(cfg.ghq_enable);
    assert_eq!(cfg.reflog_expire, "7.days.ago");
    assert!(cfg.aggressive);
    assert_eq!(cfg.interval_secs, 3600);
    assert_eq!(cfg.num_workers.get(), 8);
    assert!(cfg.skip_submodules);
    assert!(cfg.skip_lfs);
    assert!(cfg.prune_branches);
    assert_eq!(cfg.protected_branches, ["main", "release"]);
}

#[test]
fn config_repos_filters_blank() {
    let cfg = make_config(&[("MAINTENANCE_REPOS", "/a,,  ,/b")]);
    assert_eq!(cfg.repos, ["/a", "/b"]);
}

#[test]
fn config_interval_bad_value_falls_back() {
    let cfg = make_config(&[("MAINTENANCE_INTERVAL", "oops")]);
    assert_eq!(cfg.interval_secs, DEFAULT_INTERVAL_SECS);
}

#[test]
fn config_interval_zero_falls_back() {
    // 0 would turn the daemon loop into a busy loop
    let cfg = make_config(&[("MAINTENANCE_INTERVAL", "0")]);
    assert_eq!(cfg.interval_secs, DEFAULT_INTERVAL_SECS);
}

#[test]
fn config_prune_tags_defaults_false() {
    // fetch --prune-tags deletes unpushed local tags, so it must be opt-in
    let cfg = make_config(&[]);
    assert!(!cfg.prune_tags);
}

#[test]
fn config_prune_tags_enabled() {
    let cfg = make_config(&[("MAINTENANCE_PRUNE_TAGS", "true")]);
    assert!(cfg.prune_tags);
}

#[test]
fn config_workers_zero_falls_back() {
    let cfg = make_config(&[("MAINTENANCE_WORKERS", "0")]);
    assert_eq!(cfg.num_workers.get(), DEFAULT_WORKERS);
}

#[test]
fn config_bool_case_insensitive() {
    for val in ["true", "TRUE", "True"] {
        let cfg = make_config(&[("MAINTENANCE_GHQ_ENABLE", val)]);
        assert!(cfg.ghq_enable, "expected true for {val:?}");
    }
    for val in ["false", "FALSE", "0", "yes"] {
        let cfg = make_config(&[("MAINTENANCE_GHQ_ENABLE", val)]);
        assert!(!cfg.ghq_enable, "expected false for {val:?}");
    }
}

#[test]
fn bool_var_absent_returns_default() {
    let get = |_k: &str| Err::<String, _>(VarError::NotPresent);
    assert!(!bool_var(&get, "X", false));
    assert!(bool_var(&get, "X", true));
}

#[test]
fn bool_var_case_insensitive_true() {
    for val in ["true", "TRUE", "True", "tRuE"] {
        let v = val.to_string();
        let get = |_k: &str| Ok::<String, VarError>(v.clone());
        assert!(bool_var(&get, "X", false), "expected true for {val:?}");
    }
}

#[test]
fn bool_var_non_true_values_are_false() {
    for val in ["false", "FALSE", "1", "yes", "on", "0", "no"] {
        let v = val.to_string();
        let get = |_k: &str| Ok::<String, VarError>(v.clone());
        assert!(!bool_var(&get, "X", false), "expected false for {val:?}");
    }
}

#[test]
fn clean_options_mirrors_config_fields() {
    let cfg = make_config(&[
        ("MAINTENANCE_REFLOG_EXPIRE", "90.days.ago"),
        ("MAINTENANCE_AGGRESSIVE", "true"),
        ("MAINTENANCE_SKIP_SUBMODULES", "true"),
        ("MAINTENANCE_SKIP_LFS", "true"),
        ("MAINTENANCE_PRUNE_BRANCHES", "true"),
        ("MAINTENANCE_PROTECTED_BRANCHES", "main,develop"),
    ]);
    let opts = CleanOptions::from_config(&cfg);
    assert_eq!(opts.reflog_expire, "90.days.ago");
    assert!(opts.aggressive);
    assert!(opts.skip_submodules);
    assert!(opts.skip_lfs);
    assert!(opts.prune_branches);
    assert_eq!(opts.protected_branches, ["main", "develop"]);
}

#[test]
fn clean_options_defaults_are_off() {
    let opts = CleanOptions::from_config(&make_config(&[]));
    assert_eq!(opts.reflog_expire, DEFAULT_REFLOG_EXPIRE);
    assert!(!opts.aggressive);
    assert!(!opts.skip_submodules);
    assert!(!opts.skip_lfs);
}

#[test]
fn config_reflog_expire_bad_value_falls_back() {
    let cfg = make_config(&[("MAINTENANCE_REFLOG_EXPIRE", "now")]);
    assert_eq!(cfg.reflog_expire, DEFAULT_REFLOG_EXPIRE);
}

#[test]
fn config_workers_above_max_is_clamped() {
    let cfg = make_config(&[("MAINTENANCE_WORKERS", "10000")]);
    assert_eq!(cfg.num_workers.get(), MAX_WORKERS);
}

#[test]
fn config_workers_at_max_is_accepted() {
    let cfg = make_config(&[("MAINTENANCE_WORKERS", &MAX_WORKERS.to_string())]);
    assert_eq!(cfg.num_workers.get(), MAX_WORKERS);
}

#[test]
fn config_prune_branches_defaults_false() {
    let cfg = make_config(&[]);
    assert!(!cfg.prune_branches);
    assert!(cfg.protected_branches.is_empty());
}

#[test]
fn config_prune_branches_enabled() {
    let cfg = make_config(&[("MAINTENANCE_PRUNE_BRANCHES", "true")]);
    assert!(cfg.prune_branches);
}

#[test]
fn config_protected_branches_parsed() {
    let cfg = make_config(&[("MAINTENANCE_PROTECTED_BRANCHES", "main, develop , release")]);
    assert_eq!(cfg.protected_branches, ["main", "develop", "release"]);
}

#[test]
fn config_protected_branches_filters_blank() {
    let cfg = make_config(&[("MAINTENANCE_PROTECTED_BRANCHES", "main,,develop")]);
    assert_eq!(cfg.protected_branches, ["main", "develop"]);
}

#[test]
fn clean_options_mirrors_prune_branches_fields() {
    let cfg = make_config(&[
        ("MAINTENANCE_PRUNE_BRANCHES", "true"),
        ("MAINTENANCE_PROTECTED_BRANCHES", "main,develop"),
    ]);
    let opts = CleanOptions::from_config(&cfg);
    assert!(opts.prune_branches);
    assert_eq!(opts.protected_branches, ["main", "develop"]);
}

#[test]
fn config_workers_non_numeric_falls_back() {
    let cfg = make_config(&[("MAINTENANCE_WORKERS", "not-a-number")]);
    assert_eq!(cfg.num_workers.get(), DEFAULT_WORKERS);
}

#[test]
fn config_workers_valid_value_is_parsed() {
    let cfg = make_config(&[("MAINTENANCE_WORKERS", "3")]);
    assert_eq!(cfg.num_workers.get(), 3);
}
