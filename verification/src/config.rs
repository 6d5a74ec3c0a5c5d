//! Controller configuration: per-repo benchmark allowlists, the allowed
//! users, and the deployment settings that job planning reads.

use vstd::prelude::*;

use crate::models::{keys_distinct, lookup, EnvVars};
use crate::text::{
    chars_of, contains_str, lemma_push_contains, parse_i64, parse_i64_range, parse_u64,
    parse_u64_range, push_str, str_eq, str_views, to_owned_string, views,
};
use crate::yaml::opt_view;

verus! {

/// Per-repo benchmark allowlists.
#[derive(Debug, Clone)]
pub struct RepoEntry {
    pub standard: Vec<String>,
    pub criterion: Vec<String>,
    /// `"datafusion"` (default) or `"arrow"`; controls the criterion job type.
    pub criterion_type: String,
    /// Benchmarks run when no names are given.
    pub default_standard: Vec<String>,
}

/// The mathematical form of a [`RepoEntry`].
pub struct RepoEntryView {
    pub standard: Seq<Seq<char>>,
    pub criterion: Seq<Seq<char>>,
    pub criterion_type: Seq<char>,
    pub default_standard: Seq<Seq<char>>,
}

impl View for RepoEntry {
    type V = RepoEntryView;

    open spec fn view(&self) -> RepoEntryView {
        RepoEntryView {
            standard: views(self.standard@),
            criterion: views(self.criterion@),
            criterion_type: self.criterion_type@,
            default_standard: views(self.default_standard@),
        }
    }
}

/// The criterion type used when none is configured.
pub fn default_criterion_type() -> (r: String)
    ensures
        r@ == "datafusion"@,
{
    to_owned_string("datafusion")
}

/// The distinct strings of `v`, in order of first occurrence.
fn distinct_strs(v: &Vec<String>) -> (r: Vec<&str>)
    ensures
        str_views(r@).no_duplicates(),
        forall|x: Seq<char>| str_views(r@).contains(x) <==> views(v@).contains(x),
{
    let mut r: Vec<&str> = Vec::new();
    let mut k: usize = 0;
    while k < v.len()
        invariant
            0 <= k <= v@.len(),
            str_views(r@).no_duplicates(),
            forall|x: Seq<char>| str_views(r@).contains(x) <==> views(v@).take(k as int).contains(x),
        decreases v@.len() - k,
    {
        let s = v[k].as_str();
        let mut seen = false;
        let mut j: usize = 0;
        while j < r.len()
            invariant
                0 <= j <= r@.len(),
                seen == exists|m: int| 0 <= m < j && r@[m]@ == s@,
            decreases r@.len() - j,
        {
            if str_eq(r[j], s) {
                seen = true;
            }
            j = j + 1;
        }
        let ghost old_r = r@;
        proof {
            assert(views(v@).take(k + 1) =~= views(v@).take(k as int).push(s@));
            if seen {
                let m = choose|m: int| 0 <= m < j && r@[m]@ == s@;
                assert(str_views(r@)[m] == s@);
            } else {
                assert forall|m: int| 0 <= m < str_views(r@).len() implies str_views(r@)[m]
                    != s@ by {
                    assert(str_views(r@)[m] == r@[m]@);
                }
            }
        }
        if !seen {
            r.push(s);
            proof {
                assert(str_views(r@) =~= str_views(old_r).push(s@));
            }
        }
        proof {
            let t = views(v@).take(k as int);
            assert forall|x: Seq<char>| str_views(r@).contains(x) <==> t.push(s@).contains(x) by {
                lemma_push_contains(t, s@, x);
                lemma_push_contains(str_views(old_r), s@, x);
            }
        }
        k = k + 1;
    }
    proof {
        assert(views(v@).take(v@.len() as int) =~= views(v@));
    }
    r
}

impl RepoEntry {
    /// The standard benchmark names, each once.
    pub fn standard_set(&self) -> (r: Vec<&str>)
        ensures
            str_views(r@).no_duplicates(),
            forall|x: Seq<char>| str_views(r@).contains(x) <==> self@.standard.contains(x),
    {
        distinct_strs(&self.standard)
    }

    /// The criterion benchmark names, each once.
    pub fn criterion_set(&self) -> (r: Vec<&str>)
        ensures
            str_views(r@).no_duplicates(),
            forall|x: Seq<char>| str_views(r@).contains(x) <==> self@.criterion.contains(x),
    {
        distinct_strs(&self.criterion)
    }
}

/// Top-level benchmark configuration: who may trigger runs, and the
/// allowlists of each watched repository.
#[derive(Debug, Clone)]
pub struct BenchmarkConfig {
    /// Logins allowed to trigger benchmarks, each at most once.
    pub allowed_users: Vec<String>,
    /// Watched repositories (`owner/name`) with their allowlists.
    pub repos: Vec<(String, RepoEntry)>,
}

impl BenchmarkConfig {
    /// Each allowed login is listed once.
    pub open spec fn wf(&self) -> bool {
        views(self.allowed_users@).no_duplicates()
    }

    /// A configuration allowing the logins of `allowed_users` (each kept
    /// once, in order of first occurrence) and watching `repos`.
    pub fn new(allowed_users: Vec<String>, repos: Vec<(String, RepoEntry)>) -> (r: BenchmarkConfig)
        ensures
            r.wf(),
            forall|x: Seq<char>| views(r.allowed_users@).contains(x) <==> views(allowed_users@).contains(x),
            r.repos == repos,
    {
        let mut users: Vec<String> = Vec::new();
        let mut k: usize = 0;
        while k < allowed_users.len()
            invariant
                0 <= k <= allowed_users@.len(),
                views(users@).no_duplicates(),
                forall|x: Seq<char>|
                    views(users@).contains(x) <==> views(allowed_users@).take(k as int).contains(x),
            decreases allowed_users@.len() - k,
        {
            let s = allowed_users[k].as_str();
            let ghost old_u = users@;
            let seen = contains_str(&users, s);
            proof {
                assert(views(allowed_users@).take(k + 1) =~= views(allowed_users@).take(k as int).push(s@));
            }
            if !seen {
                users.push(allowed_users[k].clone());
                proof {
                    assert(views(users@) =~= views(old_u).push(s@));
                }
            }
            proof {
                let t = views(allowed_users@).take(k as int);
                assert forall|x: Seq<char>| views(users@).contains(x) <==> t.push(s@).contains(x) by {
                    lemma_push_contains(t, s@, x);
                    lemma_push_contains(views(old_u), s@, x);
                }
            }
            k = k + 1;
        }
        proof {
            assert(views(allowed_users@).take(allowed_users@.len() as int) =~= views(allowed_users@));
        }
        BenchmarkConfig { allowed_users: users, repos }
    }

    /// Whether `login` may trigger benchmarks.
    pub fn is_allowed(&self, login: &str) -> (r: bool)
        ensures
            r == views(self.allowed_users@).contains(login@),
    {
        contains_str(&self.allowed_users, login)
    }

    /// The allowlists of repository `repo`, if it is watched.
    pub fn repo(&self, repo: &str) -> (r: Option<&RepoEntry>)
        ensures
            match r {
                Some(e) => exists|i: int|
                    0 <= i < self.repos@.len() && self.repos@[i].0@ == repo@ && self.repos@[i].1
                        == *e,
                None => forall|i: int| 0 <= i < self.repos@.len() ==> self.repos@[i].0@ != repo@,
            },
    {
        let mut k: usize = 0;
        while k < self.repos.len()
            invariant
                0 <= k <= self.repos@.len(),
                forall|i: int| 0 <= i < k ==> self.repos@[i].0@ != repo@,
            decreases self.repos@.len() - k,
        {
            if str_eq(self.repos[k].0.as_str(), repo) {
                return Some(&self.repos[k].1);
            }
            k = k + 1;
        }
        None
    }
}

/// Controller configuration (read from the environment by the service).
#[derive(Debug, Clone)]
pub struct Config {
    pub github_token: String,
    pub database_url: String,
    pub benchmark_config: BenchmarkConfig,
    pub poll_interval_secs: u64,
    pub reconcile_interval_secs: u64,
    pub k8s_namespace: String,
    pub runner_image: String,
    pub default_cpu: String,
    pub default_memory: String,
    /// Ephemeral storage request for benchmark pods (e.g. `"128Gi"`).
    pub ephemeral_storage: String,
    /// Default GCE machine family for benchmark pods (`"c4a"` for ARM, `"c4"` for x86).
    pub default_machine_family: String,
    /// Maximum wall-clock seconds a K8s Job may run before being killed.
    pub active_deadline_secs: i64,
    /// Seconds after completion before the K8s Job object is garbage-collected.
    pub ttl_after_finished_secs: i32,
    /// StorageClass for the ephemeral workspace volume.
    pub storage_class: String,
    /// GCS bucket name for sccache. When set, runner pods get `RUSTC_WRAPPER=sccache`.
    pub sccache_gcs_bucket: Option<String>,
    /// GCS bucket for caching benchmark data (TPC-H, ClickBench, etc.).
    pub data_cache_bucket: Option<String>,
    /// URL of the benchmark runner's own repository, for "file an issue" links.
    pub runner_repo_url: Option<String>,
}

/// `str::parse::<i32>`.
pub open spec fn parse_i32(s: Seq<char>) -> Option<i32> {
    match parse_i64(s) {
        Some(n) => if i32::MIN <= n <= i32::MAX {
            Some(n as i32)
        } else {
            None
        },
        None => None,
    }
}

/// The value of `key`, or `default` when it is unset.
pub open spec fn var_or(env: Seq<(Seq<char>, Seq<char>)>, key: Seq<char>, default: Seq<char>) -> Seq<
    char,
> {
    match lookup(env, key) {
        Some(v) => v,
        None => default,
    }
}

/// The first problem with the controller's variables, given what
/// `BENCHMARK_CONFIG` parsed to: an unset `GITHUB_TOKEN` or
/// `BENCHMARK_CONFIG`, an unreadable `BENCHMARK_CONFIG`, an interval that
/// is no `u64`, an unset `RUNNER_IMAGE`, or a deadline or TTL that is no
/// number. The message names the variable, as the service reports it.
pub open spec fn controller_config_error(
    env: Seq<(Seq<char>, Seq<char>)>,
    parsed: bool,
) -> Option<Seq<char>> {
    if lookup(env, "GITHUB_TOKEN"@) is None {
        Some("missing required env var GITHUB_TOKEN"@)
    } else if lookup(env, "BENCHMARK_CONFIG"@) is None {
        Some("missing required env var BENCHMARK_CONFIG"@)
    } else if !parsed {
        Some("failed to parse BENCHMARK_CONFIG JSON"@)
    } else if parse_u64(var_or(env, "POLL_INTERVAL_SECS"@, "5"@)) is None {
        Some("POLL_INTERVAL_SECS"@)
    } else if parse_u64(var_or(env, "RECONCILE_INTERVAL_SECS"@, "10"@)) is None {
        Some("RECONCILE_INTERVAL_SECS"@)
    } else if lookup(env, "RUNNER_IMAGE"@) is None {
        Some("missing required env var RUNNER_IMAGE"@)
    } else if parse_i64(var_or(env, "ACTIVE_DEADLINE_SECS"@, "7200"@)) is None {
        Some("ACTIVE_DEADLINE_SECS"@)
    } else if parse_i32(var_or(env, "TTL_AFTER_FINISHED_SECS"@, "3600"@)) is None {
        Some("TTL_AFTER_FINISHED_SECS"@)
    } else {
        None
    }
}

fn env_var(env: &EnvVars, key: &str) -> (r: Option<String>)
    requires
        keys_distinct(env@),
    ensures
        opt_view(r) == lookup(env@, key@),
{
    match env.get(key) {
        Some(v) => Some(v.clone()),
        None => None,
    }
}

/// The value of `key`, or `default` when it is unset.
pub fn env_or(env: &EnvVars, key: &str, default: &str) -> (r: String)
    requires
        keys_distinct(env@),
    ensures
        r@ == var_or(env@, key@, default@),
{
    match env_var(env, key) {
        Some(v) => v,
        None => to_owned_string(default),
    }
}

fn parse_u64_str(s: &str) -> (r: Option<u64>)
    ensures
        r == parse_u64(s@),
{
    let v = chars_of(s);
    proof {
        assert(v@.subrange(0, v@.len() as int) =~= v@);
    }
    parse_u64_range(&v, 0, v.len())
}

fn parse_i64_str(s: &str) -> (r: Option<i64>)
    ensures
        r == parse_i64(s@),
{
    let v = chars_of(s);
    proof {
        assert(v@.subrange(0, v@.len() as int) =~= v@);
    }
    parse_i64_range(&v, 0, v.len())
}

fn missing(key: &str) -> (r: String)
    ensures
        r@ == "missing required env var "@ + key@,
{
    let mut e = to_owned_string("missing required env var ");
    push_str(&mut e, key);
    e
}

/// The value of a required variable, or the error naming it.
pub fn env_required(env: &EnvVars, key: &str) -> (r: Result<String, String>)
    requires
        keys_distinct(env@),
    ensures
        match lookup(env@, key@) {
            Some(v) => r matches Ok(s) && s@ == v,
            None => r matches Err(e) && e@ == "missing required env var "@ + key@,
        },
{
    match env_var(env, key) {
        Some(v) => Ok(v),
        None => Err(missing(key)),
    }
}

impl Config {
    /// The configuration given by the controller's environment variables
    /// `env`, `BENCHMARK_CONFIG` being `benchmark_config` once parsed
    /// (`None` when it is no valid configuration). Defaults:
    /// `DATABASE_URL` `sqlite:///data/benchmark.db`, `POLL_INTERVAL_SECS`
    /// 5, `RECONCILE_INTERVAL_SECS` 10, `K8S_NAMESPACE` `benchmarking`,
    /// `DEFAULT_CPU` 12, `DEFAULT_MEMORY` `65Gi`, `EPHEMERAL_STORAGE`
    /// `128Gi`, `DEFAULT_MACHINE_FAMILY` `c4a`, `ACTIVE_DEADLINE_SECS`
    /// 7200, `TTL_AFTER_FINISHED_SECS` 3600, `STORAGE_CLASS`
    /// `hyperdisk-balanced`.
    pub fn from_vars(env: &EnvVars, benchmark_config: Option<BenchmarkConfig>) -> (r: Result<
        Config,
        String,
    >)
        requires
            keys_distinct(env@),
        ensures
            match r {
                Ok(c) => {
                    &&& controller_config_error(env@, benchmark_config is Some) is None
                    &&& benchmark_config == Some(c.benchmark_config)
                    &&& lookup(env@, "GITHUB_TOKEN"@) == Some(c.github_token@)
                    &&& c.database_url@ == var_or(
                        env@,
                        "DATABASE_URL"@,
                        "sqlite:///data/benchmark.db"@,
                    )
                    &&& parse_u64(var_or(env@, "POLL_INTERVAL_SECS"@, "5"@)) == Some(
                        c.poll_interval_secs,
                    )
                    &&& parse_u64(var_or(env@, "RECONCILE_INTERVAL_SECS"@, "10"@)) == Some(
                        c.reconcile_interval_secs,
                    )
                    &&& c.k8s_namespace@ == var_or(env@, "K8S_NAMESPACE"@, "benchmarking"@)
                    &&& lookup(env@, "RUNNER_IMAGE"@) == Some(c.runner_image@)
                    &&& c.default_cpu@ == var_or(env@, "DEFAULT_CPU"@, "12"@)
                    &&& c.default_memory@ == var_or(env@, "DEFAULT_MEMORY"@, "65Gi"@)
                    &&& c.ephemeral_storage@ == var_or(env@, "EPHEMERAL_STORAGE"@, "128Gi"@)
                    &&& c.default_machine_family@ == var_or(
                        env@,
                        "DEFAULT_MACHINE_FAMILY"@,
                        "c4a"@,
                    )
                    &&& parse_i64(var_or(env@, "ACTIVE_DEADLINE_SECS"@, "7200"@)) == Some(
                        c.active_deadline_secs,
                    )
                    &&& parse_i32(var_or(env@, "TTL_AFTER_FINISHED_SECS"@, "3600"@)) == Some(
                        c.ttl_after_finished_secs,
                    )
                    &&& c.storage_class@ == var_or(
                        env@,
                        "STORAGE_CLASS"@,
                        "hyperdisk-balanced"@,
                    )
                    &&& opt_view(c.sccache_gcs_bucket) == lookup(env@, "SCCACHE_GCS_BUCKET"@)
                    &&& opt_view(c.data_cache_bucket) == lookup(env@, "DATA_CACHE_BUCKET"@)
                    &&& opt_view(c.runner_repo_url) == lookup(env@, "RUNNER_REPO_URL"@)
                },
                Err(e) => controller_config_error(env@, benchmark_config is Some) == Some(e@),
            },
    {
        proof {
            reveal_strlit("missing required env var ");
            reveal_strlit("GITHUB_TOKEN");
            reveal_strlit("BENCHMARK_CONFIG");
            reveal_strlit("RUNNER_IMAGE");
            reveal_strlit("missing required env var GITHUB_TOKEN");
            reveal_strlit("missing required env var BENCHMARK_CONFIG");
            reveal_strlit("missing required env var RUNNER_IMAGE");
        }
        let github_token = match env_var(env, "GITHUB_TOKEN") {
            Some(t) => t,
            None => {
                return Err(missing("GITHUB_TOKEN"));
            },
        };
        if env_var(env, "BENCHMARK_CONFIG").is_none() {
            return Err(missing("BENCHMARK_CONFIG"));
        }
        let benchmark_config = match benchmark_config {
            Some(b) => b,
            None => {
                return Err(to_owned_string("failed to parse BENCHMARK_CONFIG JSON"));
            },
        };
        let database_url = env_or(env, "DATABASE_URL", "sqlite:///data/benchmark.db");
        let poll = env_or(env, "POLL_INTERVAL_SECS", "5");
        let poll_interval_secs = match parse_u64_str(poll.as_str()) {
            Some(n) => n,
            None => {
                return Err(to_owned_string("POLL_INTERVAL_SECS"));
            },
        };
        let rec = env_or(env, "RECONCILE_INTERVAL_SECS", "10");
        let reconcile_interval_secs = match parse_u64_str(rec.as_str()) {
            Some(n) => n,
            None => {
                return Err(to_owned_string("RECONCILE_INTERVAL_SECS"));
            },
        };
        let k8s_namespace = env_or(env, "K8S_NAMESPACE", "benchmarking");
        let runner_image = match env_var(env, "RUNNER_IMAGE") {
            Some(t) => t,
            None => {
                return Err(missing("RUNNER_IMAGE"));
            },
        };
        let deadline = env_or(env, "ACTIVE_DEADLINE_SECS", "7200");
        let active_deadline_secs = match parse_i64_str(deadline.as_str()) {
            Some(n) => n,
            None => {
                return Err(to_owned_string("ACTIVE_DEADLINE_SECS"));
            },
        };
        let ttl = env_or(env, "TTL_AFTER_FINISHED_SECS", "3600");
        let ttl_after_finished_secs = match parse_i64_str(ttl.as_str()) {
            Some(n) => if i32::MIN as i64 <= n && n <= i32::MAX as i64 {
                n as i32
            } else {
                return Err(to_owned_string("TTL_AFTER_FINISHED_SECS"));
            },
            None => {
                return Err(to_owned_string("TTL_AFTER_FINISHED_SECS"));
            },
        };
        Ok(
            Config {
                github_token,
                database_url,
                benchmark_config,
                poll_interval_secs,
                reconcile_interval_secs,
                k8s_namespace,
                runner_image,
                default_cpu: env_or(env, "DEFAULT_CPU", "12"),
                default_memory: env_or(env, "DEFAULT_MEMORY", "65Gi"),
                ephemeral_storage: env_or(env, "EPHEMERAL_STORAGE", "128Gi"),
                default_machine_family: env_or(env, "DEFAULT_MACHINE_FAMILY", "c4a"),
                active_deadline_secs,
                ttl_after_finished_secs,
                storage_class: env_or(env, "STORAGE_CLASS", "hyperdisk-balanced"),
                sccache_gcs_bucket: env_var(env, "SCCACHE_GCS_BUCKET"),
                data_cache_bucket: env_var(env, "DATA_CACHE_BUCKET"),
                runner_repo_url: env_var(env, "RUNNER_REPO_URL"),
            },
        )
    }
}

} // verus!
