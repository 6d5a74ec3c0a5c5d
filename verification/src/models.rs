//! Domain types shared across the controller: job rows, parsed benchmark
//! requests, GitHub comments, and the job status / job type enums.

use vstd::prelude::*;

use crate::text::{push_str, str_eq, to_owned_string, views};

verus! {

/// Environment variables given as key/value pairs, each key at most once.
///
/// Pairs keep the order in which their keys were first set.
#[derive(Debug, Clone)]
pub struct EnvVars {
    pub entries: Vec<(String, String)>,
}

/// The key/value character sequences of a list of string pairs.
pub open spec fn pair_views(v: Seq<(String, String)>) -> Seq<(Seq<char>, Seq<char>)> {
    v.map_values(|p: (String, String)| (p.0@, p.1@))
}

/// No key occurs twice.
pub open spec fn keys_distinct(v: Seq<(Seq<char>, Seq<char>)>) -> bool {
    forall|i: int, j: int| 0 <= i < j < v.len() ==> #[trigger] v[i].0 != #[trigger] v[j].0
}

/// The value bound to `k`, if any.
pub open spec fn lookup(v: Seq<(Seq<char>, Seq<char>)>, k: Seq<char>) -> Option<Seq<char>> {
    if exists|i: int| 0 <= i < v.len() && v[i].0 == k {
        Some(v[choose|i: int| 0 <= i < v.len() && v[i].0 == k].1)
    } else {
        None
    }
}

/// Binding `k` to `val`: replaces the value in place when `k` is present,
/// otherwise appends the pair.
pub open spec fn bind(v: Seq<(Seq<char>, Seq<char>)>, k: Seq<char>, val: Seq<char>) -> Seq<
    (Seq<char>, Seq<char>),
> {
    if exists|i: int| 0 <= i < v.len() && v[i].0 == k {
        v.update(choose|i: int| 0 <= i < v.len() && v[i].0 == k, (k, val))
    } else {
        v.push((k, val))
    }
}

/// The bindings `pairs` applied to `v` in order, each with [`bind`].
pub open spec fn bind_all(v: Seq<(Seq<char>, Seq<char>)>, pairs: Seq<(Seq<char>, Seq<char>)>) -> Seq<
    (Seq<char>, Seq<char>),
>
    decreases pairs.len(),
{
    if pairs.len() == 0 {
        v
    } else {
        let acc = bind_all(v, pairs.drop_last());
        bind(acc, pairs.last().0, pairs.last().1)
    }
}

impl View for EnvVars {
    type V = Seq<(Seq<char>, Seq<char>)>;

    open spec fn view(&self) -> Seq<(Seq<char>, Seq<char>)> {
        pair_views(self.entries@)
    }
}

impl EnvVars {
    pub fn new() -> (r: EnvVars)
        ensures
            r@ == Seq::<(Seq<char>, Seq<char>)>::empty(),
    {
        let r = EnvVars { entries: Vec::new() };
        proof {
            assert(r@ =~= Seq::<(Seq<char>, Seq<char>)>::empty());
        }
        r
    }

    pub fn len(&self) -> (r: usize)
        ensures
            r == self@.len(),
    {
        self.entries.len()
    }

    pub fn is_empty(&self) -> (r: bool)
        ensures
            r == (self@.len() == 0),
    {
        self.entries.len() == 0
    }

    /// Position of `key`, if bound.
    fn position(&self, key: &str) -> (r: Option<usize>)
        ensures
            match r {
                Some(i) => i < self@.len() && self@[i as int].0 == key@ && forall|j: int|
                    0 <= j < i ==> self@[j].0 != key@,
                None => forall|j: int| 0 <= j < self@.len() ==> self@[j].0 != key@,
            },
    {
        let mut k: usize = 0;
        while k < self.entries.len()
            invariant
                0 <= k <= self@.len(),
                forall|j: int| 0 <= j < k ==> self@[j].0 != key@,
            decreases self@.len() - k,
        {
            if str_eq(self.entries[k].0.as_str(), key) {
                return Some(k);
            }
            k = k + 1;
        }
        None
    }

    /// The value bound to `key`.
    pub fn get(&self, key: &str) -> (r: Option<&String>)
        requires
            keys_distinct(self@),
        ensures
            match r {
                Some(v) => lookup(self@, key@) == Some(v@),
                None => lookup(self@, key@) is None,
            },
    {
        match self.position(key) {
            Some(i) => {
                proof {
                    let c = choose|j: int| 0 <= j < self@.len() && self@[j].0 == key@;
                    assert(self@[c].0 == key@);
                    assert(c == i);
                }
                Some(&self.entries[i].1)
            },
            None => None,
        }
    }

    /// Binds `key` to `value`, replacing an existing binding.
    pub fn insert(&mut self, key: String, value: String)
        requires
            keys_distinct(old(self)@),
        ensures
            final(self)@ == bind(old(self)@, key@, value@),
            keys_distinct(final(self)@),
    {
        let ghost k = key@;
        let ghost val = value@;
        match self.position(key.as_str()) {
            Some(i) => {
                proof {
                    let c = choose|j: int| 0 <= j < old(self)@.len() && old(self)@[j].0 == k;
                    assert(old(self)@[c].0 == k);
                    assert(c == i);
                }
                self.entries.set(i, (key, value));
                proof {
                    assert(self@ =~= old(self)@.update(i as int, (k, val)));
                }
            },
            None => {
                self.entries.push((key, value));
                proof {
                    assert(self@ =~= old(self)@.push((k, val)));
                }
            },
        }
    }
}

/// Parsed user intent from a PR comment (e.g. `run benchmark tpch_mem`).
/// Empty `benchmarks` means "run the default suite".
#[derive(Debug, Clone)]
pub struct BenchmarkRequest {
    pub benchmarks: Vec<String>,
    pub env_vars: EnvVars,
    pub baseline_env_vars: EnvVars,
    pub changed_env_vars: EnvVars,
    pub baseline_ref: Option<String>,
    pub changed_ref: Option<String>,
}

/// Benchmark runner variant.
///
/// - `Standard`: shell-based DataFusion benchmarks (tpch, clickbench, etc.)
/// - `Criterion`: `cargo bench` criterion benchmarks in DataFusion
/// - `ArrowCriterion`: `cargo bench` criterion benchmarks in arrow-rs
#[derive(Debug, Clone, Copy, PartialEq, Eq, Structural)]
pub enum JobType {
    Standard,
    Criterion,
    ArrowCriterion,
}

/// The string stored in the `job_type` column for each job type.
pub open spec fn job_type_text(t: JobType) -> Seq<char> {
    match t {
        JobType::Standard => "standard"@,
        JobType::Criterion => "criterion"@,
        JobType::ArrowCriterion => "arrow_criterion"@,
    }
}

impl JobType {
    /// Returns the string stored in the `job_type` SQLite column.
    pub fn as_str(&self) -> (r: &'static str)
        ensures
            r@ == job_type_text(*self),
    {
        match self {
            JobType::Standard => "standard",
            JobType::Criterion => "criterion",
            JobType::ArrowCriterion => "arrow_criterion",
        }
    }
}

/// Lifecycle status of a benchmark job in SQLite.
///
/// ```text
/// pending ──► running ──► completed
///    │           │
///    └───────────┴──► failed
/// ```
#[derive(Debug, Clone, Copy, PartialEq, Eq, Structural)]
pub enum JobStatus {
    Pending,
    Running,
    Completed,
    Failed,
}

/// The string stored in the `status` column for each status.
pub open spec fn job_status_text(s: JobStatus) -> Seq<char> {
    match s {
        JobStatus::Pending => "pending"@,
        JobStatus::Running => "running"@,
        JobStatus::Completed => "completed"@,
        JobStatus::Failed => "failed"@,
    }
}

/// The transitions the status state machine allows.
pub open spec fn status_transition_allowed(from: JobStatus, to: JobStatus) -> bool {
    match (from, to) {
        (JobStatus::Pending, JobStatus::Running) => true,
        (JobStatus::Pending, JobStatus::Failed) => true,
        (JobStatus::Running, JobStatus::Completed) => true,
        (JobStatus::Running, JobStatus::Failed) => true,
        _ => false,
    }
}

impl JobStatus {
    /// Returns the string stored in the `status` SQLite column.
    pub fn as_str(&self) -> (r: &'static str)
        ensures
            r@ == job_status_text(*self),
    {
        match self {
            JobStatus::Pending => "pending",
            JobStatus::Running => "running",
            JobStatus::Completed => "completed",
            JobStatus::Failed => "failed",
        }
    }
}

/// Fields for inserting a new benchmark job into SQLite.
#[derive(Debug, Clone, Copy)]
pub struct JobInsert<'a> {
    pub comment_id: i64,
    pub repo: &'a str,
    pub pr_number: i64,
    pub pr_url: &'a str,
    pub login: &'a str,
    pub benchmarks: &'a str,
    pub env_vars: &'a str,
    pub baseline_env_vars: &'a str,
    pub changed_env_vars: &'a str,
    pub baseline_ref: Option<&'a str>,
    pub changed_ref: Option<&'a str>,
    pub job_type: &'a str,
}

/// SQLite row for a benchmark job; `status` follows the [`JobStatus`]
/// state machine.
#[derive(Debug, Clone)]
pub struct BenchmarkJob {
    pub id: i64,
    pub comment_id: i64,
    pub repo: String,
    pub pr_number: i64,
    pub pr_url: String,
    pub login: String,
    pub benchmarks: String,
    pub env_vars: String,
    pub baseline_env_vars: String,
    pub changed_env_vars: String,
    pub baseline_ref: Option<String>,
    pub changed_ref: Option<String>,
    pub job_type: String,
    pub cpu_request: Option<String>,
    pub memory_request: Option<String>,
    pub cpu_arch: Option<String>,
    pub k8s_job_name: Option<String>,
    pub status: String,
    pub error_message: Option<String>,
    pub created_at: String,
    pub updated_at: String,
}

/// Nested user object inside a [`GitHubComment`].
#[derive(Debug, Clone)]
pub struct GitHubUser {
    pub login: String,
}

/// GitHub API response for an issue/PR comment.
#[derive(Debug, Clone)]
pub struct GitHubComment {
    pub id: i64,
    pub body: Option<String>,
    pub user: Option<GitHubUser>,
    pub html_url: Option<String>,
    pub created_at: Option<String>,
    pub issue_url: Option<String>,
}

/// The text of an optional string, or the empty sequence.
pub open spec fn text_or_empty(s: Option<String>) -> Seq<char> {
    match s {
        Some(t) => t@,
        None => Seq::empty(),
    }
}

fn str_or_empty(s: &Option<String>) -> (r: &str)
    ensures
        r@ == text_or_empty(*s),
{
    match s {
        Some(t) => t.as_str(),
        None => {
            proof {
                reveal_strlit("");
            }
            ""
        },
    }
}

impl GitHubComment {
    /// The comment body text, or `""` if absent.
    pub fn body_text(&self) -> (r: &str)
        ensures
            r@ == text_or_empty(self.body),
    {
        str_or_empty(&self.body)
    }

    /// The author's login, or `""` if absent.
    pub fn login(&self) -> (r: &str)
        ensures
            r@ == match self.user {
                Some(u) => u.login@,
                None => Seq::empty(),
            },
    {
        match &self.user {
            Some(u) => u.login.as_str(),
            None => {
                proof {
                    reveal_strlit("");
                }
                ""
            },
        }
    }

    /// The HTML URL of this comment, or `""` if absent.
    pub fn url(&self) -> (r: &str)
        ensures
            r@ == text_or_empty(self.html_url),
    {
        str_or_empty(&self.html_url)
    }

    /// The ISO 8601 creation timestamp, or `""` if absent.
    pub fn created_at_str(&self) -> (r: &str)
        ensures
            r@ == text_or_empty(self.created_at),
    {
        str_or_empty(&self.created_at)
    }

    /// The API URL of the parent issue/PR, or `""` if absent.
    pub fn issue_url_str(&self) -> (r: &str)
        ensures
            r@ == text_or_empty(self.issue_url),
    {
        str_or_empty(&self.issue_url)
    }
}

} // verus!
