//! The runner's configuration, taken from the environment of its pod.
//!
//! The controller passes `PR_URL`, `COMMENT_ID`, `BENCHMARKS`,
//! `BENCH_TYPE`, `BENCH_NAME`, `BENCH_FILTER`, `REPO`, `JOB_ID`,
//! `RUNNER_TOKEN`, `CONTROLLER_URL` and `RUNNER_REPO_URL` to PR-triggered
//! runner pods; the scheduled main-tracking workflow supplies
//! `GITHUB_TOKEN` instead.

use vstd::prelude::*;

use crate::json::{json_string_map, parse_json_map};
use crate::models::{job_type_text, lookup, pair_views, EnvVars, JobType};
use crate::poller::{last_segment_number, pr_number_of};
use crate::text::{chars_of, push_str, str_eq, to_owned_string};
use crate::yaml::opt_view;

verus! {

/// Benchmark runner variant, parsed from `BENCH_TYPE`.
#[derive(Debug, Clone, Copy, PartialEq, Eq, Structural)]
pub enum BenchType {
    Standard,
    Criterion,
    ArrowCriterion,
    MainTracking,
}

/// The `BENCH_TYPE` value of each variant.
pub open spec fn bench_type_text(t: BenchType) -> Seq<char> {
    match t {
        BenchType::Standard => "standard"@,
        BenchType::Criterion => "criterion"@,
        BenchType::ArrowCriterion => "arrow_criterion"@,
        BenchType::MainTracking => "main_tracking"@,
    }
}

/// The variant a `BENCH_TYPE` value names.
pub open spec fn bench_type_of(s: Seq<char>) -> Result<BenchType, Seq<char>> {
    if s == "standard"@ {
        Ok(BenchType::Standard)
    } else if s == "criterion"@ {
        Ok(BenchType::Criterion)
    } else if s == "arrow_criterion"@ {
        Ok(BenchType::ArrowCriterion)
    } else if s == "main_tracking"@ {
        Ok(BenchType::MainTracking)
    } else {
        Err("unknown BENCH_TYPE: "@ + s)
    }
}

impl BenchType {
    /// Parse a `BENCH_TYPE` value.
    pub fn from_str(s: &str) -> (r: Result<BenchType, String>)
        ensures
            match r {
                Ok(t) => bench_type_of(s@) == Ok::<BenchType, Seq<char>>(t),
                Err(e) => bench_type_of(s@) == Err::<BenchType, Seq<char>>(e@),
            },
    {
        if str_eq(s, "standard") {
            Ok(BenchType::Standard)
        } else if str_eq(s, "criterion") {
            Ok(BenchType::Criterion)
        } else if str_eq(s, "arrow_criterion") {
            Ok(BenchType::ArrowCriterion)
        } else if str_eq(s, "main_tracking") {
            Ok(BenchType::MainTracking)
        } else {
            let mut e = String::new();
            push_str(&mut e, "unknown BENCH_TYPE: ");
            push_str(&mut e, s);
            Err(e)
        }
    }
}

/// Every variant's `BENCH_TYPE` value parses back to it, and the job types
/// the controller stores reach the runner as their own variant.
pub proof fn lemma_bench_type_round_trip(t: BenchType, j: JobType)
    ensures
        bench_type_of(bench_type_text(t)) == Ok::<BenchType, Seq<char>>(t),
        bench_type_of(job_type_text(j)) == Ok::<BenchType, Seq<char>>(
            match j {
                JobType::Standard => BenchType::Standard,
                JobType::Criterion => BenchType::Criterion,
                JobType::ArrowCriterion => BenchType::ArrowCriterion,
            },
        ),
{
    reveal_strlit("standard");
    reveal_strlit("criterion");
    reveal_strlit("arrow_criterion");
    reveal_strlit("main_tracking");
    assert("criterion"@.len() != "standard"@.len());
    assert("arrow_criterion"@.len() != "standard"@.len());
    assert("arrow_criterion"@.len() != "criterion"@.len());
    assert("main_tracking"@.len() != "standard"@.len());
    assert("main_tracking"@.len() != "criterion"@.len());
    assert("main_tracking"@.len() != "arrow_criterion"@.len());
    assert("main_tracking"@[0] != "arrow_criterion"@[0]);
}

/// How PR comments are posted from this runner.
#[derive(Debug, Clone)]
pub enum PosterMode {
    /// Direct to GitHub with a `GITHUB_TOKEN`: the scheduled main-tracking
    /// workflow, where the code under benchmark is trusted.
    Direct { github_token: String },
    /// Through the controller, which authenticates the runner with `token`
    /// and finds the job by `job_id`: PR-triggered runs, so the pod never
    /// holds a GitHub credential.
    Proxy { controller_url: String, job_id: String, token: String },
}

/// The runner's configuration.
#[derive(Debug, Clone)]
pub struct RunnerConfig {
    pub pr_url: String,
    pub comment_id: String,
    pub comment_url: String,
    pub benchmarks: String,
    pub bench_type: BenchType,
    pub bench_name: String,
    pub bench_filter: String,
    pub repo: String,
    pub poster_mode: PosterMode,
    pub sccache_gcs_bucket: Option<String>,
    pub data_cache_bucket: Option<String>,
    pub baseline_env_vars: EnvVars,
    pub changed_env_vars: EnvVars,
    pub baseline_ref: Option<String>,
    pub changed_ref: Option<String>,
    /// URL of the benchmark runner's own GitHub repo (for "file an issue"
    /// links).
    pub runner_repo_url: Option<String>,
}

/// `KEY=VALUE` for each binding, in order.
pub open spec fn env_args_of(v: Seq<(Seq<char>, Seq<char>)>) -> Seq<Seq<char>> {
    v.map_values(|p: (Seq<char>, Seq<char>)| p.0 + "="@ + p.1)
}

fn env_args(env: &EnvVars) -> (r: Vec<String>)
    ensures
        crate::text::views(r@) == env_args_of(env@),
{
    let ghost want = env_args_of(env@);
    let mut out: Vec<String> = Vec::new();
    let mut k: usize = 0;
    while k < env.entries.len()
        invariant
            0 <= k <= env.entries@.len(),
            want == env_args_of(env@),
            crate::text::views(out@) == want.take(k as int),
        decreases env.entries@.len() - k,
    {
        let mut s = String::new();
        push_str(&mut s, env.entries[k].0.as_str());
        push_str(&mut s, "=");
        push_str(&mut s, env.entries[k].1.as_str());
        let ghost before = out@;
        out.push(s);
        proof {
            assert(crate::text::views(out@) =~= crate::text::views(before).push(s@));
            assert(want.take(k + 1) =~= want.take(k as int).push(want[k as int]));
        }
        k = k + 1;
    }
    proof {
        assert(want.take(env.entries@.len() as int) =~= want);
    }
    out
}

impl RunnerConfig {
    /// The repo clone URL.
    pub fn repo_url(&self) -> (r: String)
        ensures
            r@ == "https://github.com/"@ + self.repo@ + ".git"@,
    {
        let mut s = String::new();
        push_str(&mut s, "https://github.com/");
        push_str(&mut s, self.repo.as_str());
        push_str(&mut s, ".git");
        s
    }

    /// Extract the PR number from the PR URL (last path segment).
    pub fn pr_number(&self) -> (r: Result<i64, String>)
        ensures
            match pr_number_of(self.pr_url@) {
                Some(n) => r == Ok::<i64, String>(n),
                None => r matches Err(e) && e@ == "failed to parse PR number from PR_URL"@,
            },
    {
        let v = chars_of(self.pr_url.as_str());
        match last_segment_number(&v) {
            Some(n) => Ok(n),
            None => Err(to_owned_string("failed to parse PR number from PR_URL")),
        }
    }

    /// The `KEY=VALUE` arguments (for the `env` command) of the
    /// baseline-specific environment; the shared variables are already set
    /// on the pod.
    pub fn baseline_env_args(&self) -> (r: Vec<String>)
        ensures
            crate::text::views(r@) == env_args_of(self.baseline_env_vars@),
    {
        env_args(&self.baseline_env_vars)
    }

    /// The `KEY=VALUE` arguments of the changed-side environment.
    pub fn changed_env_args(&self) -> (r: Vec<String>)
        ensures
            crate::text::views(r@) == env_args_of(self.changed_env_vars@),
    {
        env_args(&self.changed_env_vars)
    }
}

/// The link to the comment that triggered a run.
pub open spec fn comment_url_of(pr_url: Seq<char>, comment_id: Seq<char>) -> Seq<char> {
    pr_url + "#issuecomment-"@ + comment_id
}

/// The per-side environment from the JSON object in an environment
/// variable: empty when the variable is unset or holds no such object.
pub open spec fn side_env_of(text: Option<Seq<char>>) -> Seq<(Seq<char>, Seq<char>)> {
    match text {
        Some(t) => match json_string_map(t) {
            Ok(v) => v,
            Err(_) => seq![],
        },
        None => seq![],
    }
}

/// The message for an unset required variable.
pub open spec fn missing_var_text(key: Seq<char>) -> Seq<char> {
    "missing required env var "@ + key
}

/// The message when neither way of posting comments is configured.
pub open spec fn missing_credentials_text() -> Seq<char> {
    "missing credentials: set RUNNER_TOKEN+CONTROLLER_URL+JOB_ID (proxy mode) or GITHUB_TOKEN (direct mode)"@
}

/// The poster mode the variables allow: the controller proxy when its
/// three variables are set, else direct posting with a GitHub token.
pub open spec fn poster_mode_of(env: Seq<(Seq<char>, Seq<char>)>) -> Result<PosterModeView, Seq<char>> {
    match (lookup(env, "RUNNER_TOKEN"@), lookup(env, "CONTROLLER_URL"@), lookup(env, "JOB_ID"@)) {
        (Some(t), Some(u), Some(i)) => Ok(PosterModeView::Proxy(u, i, t)),
        _ => match lookup(env, "GITHUB_TOKEN"@) {
            Some(g) => Ok(PosterModeView::Direct(g)),
            None => Err(missing_credentials_text()),
        },
    }
}

pub enum PosterModeView {
    Direct(Seq<char>),
    /// Controller URL, job id, token.
    Proxy(Seq<char>, Seq<char>, Seq<char>),
}

pub open spec fn poster_mode_view(m: PosterMode) -> PosterModeView {
    match m {
        PosterMode::Direct { github_token } => PosterModeView::Direct(github_token@),
        PosterMode::Proxy { controller_url, job_id, token } => PosterModeView::Proxy(
            controller_url@,
            job_id@,
            token@,
        ),
    }
}

fn var(env: &EnvVars, key: &str) -> (r: Option<String>)
    requires
        crate::models::keys_distinct(env@),
    ensures
        opt_view(r) == lookup(env@, key@),
{
    match env.get(key) {
        Some(v) => Some(v.clone()),
        None => None,
    }
}

/// The value of a required variable, or the error naming it.
pub fn env_required(env: &EnvVars, key: &str) -> (r: Result<String, String>)
    requires
        crate::models::keys_distinct(env@),
    ensures
        match lookup(env@, key@) {
            Some(v) => r matches Ok(s) && s@ == v,
            None => r matches Err(e) && e@ == missing_var_text(key@),
        },
{
    match var(env, key) {
        Some(v) => Ok(v),
        None => {
            let mut e = String::new();
            push_str(&mut e, "missing required env var ");
            push_str(&mut e, key);
            Err(e)
        },
    }
}

/// The value of `key`, or `default` when it is unset.
pub fn env_or(env: &EnvVars, key: &str, default: &str) -> (r: String)
    requires
        crate::models::keys_distinct(env@),
    ensures
        r@ == match lookup(env@, key@) {
            Some(v) => v,
            None => default@,
        },
{
    match var(env, key) {
        Some(v) => v,
        None => to_owned_string(default),
    }
}

/// Pick the poster mode from the variables that are set. Proxy mode wins
/// when both are available; in practice a pod has only one set.
pub fn parse_poster_mode(env: &EnvVars) -> (r: Result<PosterMode, String>)
    requires
        crate::models::keys_distinct(env@),
    ensures
        match r {
            Ok(m) => poster_mode_of(env@) == Ok::<PosterModeView, Seq<char>>(poster_mode_view(m)),
            Err(e) => poster_mode_of(env@) == Err::<PosterModeView, Seq<char>>(e@),
        },
{
    let token = var(env, "RUNNER_TOKEN");
    let url = var(env, "CONTROLLER_URL");
    let id = var(env, "JOB_ID");
    match (token, url, id) {
        (Some(token), Some(controller_url), Some(job_id)) => {
            return Ok(PosterMode::Proxy { controller_url, job_id, token });
        },
        _ => {},
    }
    match var(env, "GITHUB_TOKEN") {
        Some(github_token) => Ok(PosterMode::Direct { github_token }),
        None => Err(
            to_owned_string(
                "missing credentials: set RUNNER_TOKEN+CONTROLLER_URL+JOB_ID (proxy mode) or GITHUB_TOKEN (direct mode)",
            ),
        ),
    }
}

fn side_env(text: Option<String>) -> (r: EnvVars)
    ensures
        r@ == side_env_of(opt_view(text)),
{
    match text {
        Some(t) => match parse_json_map(t.as_str()) {
            Ok(v) => EnvVars { entries: v },
            Err(_) => EnvVars::new(),
        },
        None => EnvVars::new(),
    }
}

/// The first problem with the pod's variables, if any: an unset
/// `PR_URL`, `COMMENT_ID` or `BENCH_TYPE`, an unknown `BENCH_TYPE`, an
/// unset `REPO`, or missing credentials.
pub open spec fn config_error(env: Seq<(Seq<char>, Seq<char>)>) -> Option<Seq<char>> {
    if lookup(env, "PR_URL"@) is None {
        Some(missing_var_text("PR_URL"@))
    } else if lookup(env, "COMMENT_ID"@) is None {
        Some(missing_var_text("COMMENT_ID"@))
    } else if lookup(env, "BENCH_TYPE"@) is None {
        Some(missing_var_text("BENCH_TYPE"@))
    } else if bench_type_of(lookup(env, "BENCH_TYPE"@)->0) is Err {
        Some(bench_type_of(lookup(env, "BENCH_TYPE"@)->0)->Err_0)
    } else if lookup(env, "REPO"@) is None {
        Some(missing_var_text("REPO"@))
    } else {
        match poster_mode_of(env) {
            Err(e) => Some(e),
            Ok(_) => None,
        }
    }
}

impl RunnerConfig {
    /// The configuration given by the pod's environment variables `env`:
    /// the first unset required variable (`PR_URL`, `COMMENT_ID`,
    /// `BENCH_TYPE`, then `REPO`), an unknown `BENCH_TYPE` or missing
    /// credentials is an error; `BENCHMARKS`, `BENCH_NAME` (default
    /// `sql_planner`) and `BENCH_FILTER` have defaults; the per-side
    /// environments are JSON objects, empty when unset or unreadable.
    pub fn from_vars(env: &EnvVars) -> (r: Result<RunnerConfig, String>)
        requires
            crate::models::keys_distinct(env@),
        ensures
            match r {
                Ok(c) => {
                    &&& config_error(env@) is None
                    &&& lookup(env@, "PR_URL"@) == Some(c.pr_url@)
                    &&& lookup(env@, "COMMENT_ID"@) == Some(c.comment_id@)
                    &&& c.comment_url@ == comment_url_of(c.pr_url@, c.comment_id@)
                    &&& lookup(env@, "BENCH_TYPE"@) matches Some(t) && bench_type_of(t) == Ok::<
                        BenchType,
                        Seq<char>,
                    >(c.bench_type)
                    &&& lookup(env@, "REPO"@) == Some(c.repo@)
                    &&& c.benchmarks@ == match lookup(env@, "BENCHMARKS"@) {
                        Some(v) => v,
                        None => Seq::empty(),
                    }
                    &&& c.bench_name@ == match lookup(env@, "BENCH_NAME"@) {
                        Some(v) => v,
                        None => "sql_planner"@,
                    }
                    &&& c.bench_filter@ == match lookup(env@, "BENCH_FILTER"@) {
                        Some(v) => v,
                        None => Seq::empty(),
                    }
                    &&& poster_mode_of(env@) == Ok::<PosterModeView, Seq<char>>(
                        poster_mode_view(c.poster_mode),
                    )
                    &&& opt_view(c.sccache_gcs_bucket) == lookup(env@, "SCCACHE_GCS_BUCKET"@)
                    &&& opt_view(c.data_cache_bucket) == lookup(env@, "DATA_CACHE_BUCKET"@)
                    &&& c.baseline_env_vars@ == side_env_of(lookup(env@, "BASELINE_ENV_VARS"@))
                    &&& c.changed_env_vars@ == side_env_of(lookup(env@, "CHANGED_ENV_VARS"@))
                    &&& opt_view(c.baseline_ref) == lookup(env@, "BASELINE_REF"@)
                    &&& opt_view(c.changed_ref) == lookup(env@, "CHANGED_REF"@)
                    &&& opt_view(c.runner_repo_url) == lookup(env@, "RUNNER_REPO_URL"@)
                },
                Err(e) => config_error(env@) == Some(e@),
            },
    {
        let pr_url = env_required(env, "PR_URL")?;
        let comment_id = env_required(env, "COMMENT_ID")?;
        let mut comment_url = String::new();
        push_str(&mut comment_url, pr_url.as_str());
        push_str(&mut comment_url, "#issuecomment-");
        push_str(&mut comment_url, comment_id.as_str());
        let bench_type_str = env_required(env, "BENCH_TYPE")?;
        let benchmarks = env_or(env, "BENCHMARKS", "");
        let bench_type = BenchType::from_str(bench_type_str.as_str())?;
        let bench_name = env_or(env, "BENCH_NAME", "sql_planner");
        let bench_filter = env_or(env, "BENCH_FILTER", "");
        let repo = env_required(env, "REPO")?;
        let poster_mode = parse_poster_mode(env)?;
        proof {
            reveal_strlit("");
        }
        Ok(
            RunnerConfig {
                pr_url,
                comment_id,
                comment_url,
                benchmarks,
                bench_type,
                bench_name,
                bench_filter,
                repo,
                poster_mode,
                sccache_gcs_bucket: var(env, "SCCACHE_GCS_BUCKET"),
                data_cache_bucket: var(env, "DATA_CACHE_BUCKET"),
                baseline_env_vars: side_env(var(env, "BASELINE_ENV_VARS")),
                changed_env_vars: side_env(var(env, "CHANGED_ENV_VARS")),
                baseline_ref: var(env, "BASELINE_REF"),
                changed_ref: var(env, "CHANGED_REF"),
                runner_repo_url: var(env, "RUNNER_REPO_URL"),
            },
        )
    }
}

} // verus!
