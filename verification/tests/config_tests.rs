use benchmark_controller::config::{env_or, env_required, BenchmarkConfig, Config, RepoEntry};
use benchmark_controller::models::EnvVars;

fn vars(pairs: &[(&str, &str)]) -> EnvVars {
    let mut e = EnvVars::new();
    for (k, v) in pairs {
        e.insert(k.to_string(), v.to_string());
    }
    e
}

#[test]
fn env_or_returns_default_when_unset() {
    let val = env_or(&EnvVars::new(), "__TEST_UNSET_VAR_12345__", "fallback");
    assert_eq!(val, "fallback");
}

#[test]
fn env_required_errors_when_unset() {
    assert!(env_required(&EnvVars::new(), "__TEST_REQUIRED_MISSING__").is_err());
}

#[test]
fn env_or_returns_value_when_set() {
    let env = vars(&[("__TEST_ENV_OR_SET__", "hello")]);
    let val = env_or(&env, "__TEST_ENV_OR_SET__", "fallback");
    assert_eq!(val, "hello");
}

#[test]
fn env_required_returns_value_when_set() {
    let env = vars(&[("__TEST_REQUIRED_SET__", "world")]);
    let val = env_required(&env, "__TEST_REQUIRED_SET__").unwrap();
    assert_eq!(val, "world");
}

// ── further cases ───────────────────────────────────────────────────

fn bench() -> BenchmarkConfig {
    BenchmarkConfig { allowed_users: vec!["a".into()], repos: vec![] }
}

#[test]
fn controller_config_defaults() {
    let env = vars(&[("GITHUB_TOKEN", "t"), ("BENCHMARK_CONFIG", "{}"), ("RUNNER_IMAGE", "img")]);
    let c = Config::from_vars(&env, Some(bench())).unwrap();
    assert_eq!(c.database_url, "sqlite:///data/benchmark.db");
    assert_eq!(c.poll_interval_secs, 5);
    assert_eq!(c.reconcile_interval_secs, 10);
    assert_eq!(c.k8s_namespace, "benchmarking");
    assert_eq!(c.default_cpu, "12");
    assert_eq!(c.default_memory, "65Gi");
    assert_eq!(c.ephemeral_storage, "128Gi");
    assert_eq!(c.default_machine_family, "c4a");
    assert_eq!(c.active_deadline_secs, 7200);
    assert_eq!(c.ttl_after_finished_secs, 3600);
    assert_eq!(c.storage_class, "hyperdisk-balanced");
    assert!(c.sccache_gcs_bucket.is_none());
}

#[test]
fn controller_config_errors() {
    let err = Config::from_vars(&EnvVars::new(), None).unwrap_err();
    assert_eq!(err, "missing required env var GITHUB_TOKEN");
    let env = vars(&[("GITHUB_TOKEN", "t"), ("BENCHMARK_CONFIG", "x")]);
    assert_eq!(Config::from_vars(&env, None).unwrap_err(), "failed to parse BENCHMARK_CONFIG JSON");
    let env = vars(&[("GITHUB_TOKEN", "t"), ("BENCHMARK_CONFIG", "{}"), ("POLL_INTERVAL_SECS", "-1")]);
    assert_eq!(Config::from_vars(&env, Some(bench())).unwrap_err(), "POLL_INTERVAL_SECS");
    let env = vars(&[("GITHUB_TOKEN", "t"), ("BENCHMARK_CONFIG", "{}")]);
    assert_eq!(Config::from_vars(&env, Some(bench())).unwrap_err(), "missing required env var RUNNER_IMAGE");
    let env = vars(&[
        ("GITHUB_TOKEN", "t"),
        ("BENCHMARK_CONFIG", "{}"),
        ("RUNNER_IMAGE", "i"),
        ("TTL_AFTER_FINISHED_SECS", "3000000000"),
    ]);
    assert_eq!(Config::from_vars(&env, Some(bench())).unwrap_err(), "TTL_AFTER_FINISHED_SECS");
}

#[test]
fn repo_lookup_and_sets() {
    let entry = RepoEntry {
        standard: vec!["a".into(), "b".into(), "a".into()],
        criterion: vec!["c".into()],
        criterion_type: "arrow".into(),
        default_standard: vec![],
    };
    let cfg = BenchmarkConfig { allowed_users: vec!["u".into()], repos: vec![("o/r".into(), entry)] };
    assert!(cfg.is_allowed("u"));
    assert!(!cfg.is_allowed("U"));
    assert!(cfg.repo("o/r").is_some());
    assert!(cfg.repo("o/x").is_none());
    let e = cfg.repo("o/r").unwrap();
    assert_eq!(e.standard_set().len(), 2);
    assert_eq!(e.criterion_set(), vec!["c"]);
}

#[test]
fn benchmark_config_keeps_each_login_once() {
    let c = BenchmarkConfig::new(vec!["b".into(), "a".into(), "b".into(), "a".into()], vec![]);
    assert_eq!(c.allowed_users, vec!["b".to_string(), "a".to_string()]);
    assert!(c.is_allowed("a") && c.is_allowed("b") && !c.is_allowed("c"));
}
