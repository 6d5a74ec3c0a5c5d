//! What the comment poller does with one PR comment: which number it
//! belongs to, whether it asks for the queue or a benchmark run, and the
//! replies and job rows that follow.

use vstd::prelude::*;

use crate::benchmarks::{
    allowed_markdown, classify, detect_benchmark, detect_spec, is_benchmark_trigger,
    is_queue_request, lower_starts_with, supported_benchmarks_message, supported_message,
    trigger_line, DetectResult, DetectView, RequestView,
};
use crate::config::{BenchmarkConfig, RepoEntry, RepoEntryView};
use crate::json::{json_string_array, json_string_object, to_json_array, to_json_object};
use crate::models::{job_type_text, text_or_empty, BenchmarkJob, GitHubComment, JobInsert};
use crate::yaml::{opt_view, CommentConfig};
use crate::text::{
    all_digits, chars_of, dec, int_dec, i64_to_string, is_digit, join, join_strings,
    lemma_dec_digits, parse_i64, parse_i64_range, push_str, range_texts, split_ws,
    strings_of_ranges, to_owned_string, trim, eq_ignore_ascii_case, views, word_ranges,
};

verus! {

// ───────────────────────────── PR numbers ─────────────────────────────

/// `s` without any trailing `c` (`str::trim_end_matches`).
pub open spec fn trim_end_char(s: Seq<char>, c: char) -> Seq<char>
    decreases s.len(),
{
    if s.len() > 0 && s.last() == c {
        trim_end_char(s.drop_last(), c)
    } else {
        s
    }
}

/// The text after the last `c` in `s`, or all of `s` when it holds no `c`
/// (the first item of `str::rsplit`).
pub open spec fn last_segment(s: Seq<char>, c: char) -> Seq<char>
    decreases s.len(),
{
    if s.len() == 0 || s.last() == c {
        seq![]
    } else {
        last_segment(s.drop_last(), c).push(s.last())
    }
}

/// The number in the last path segment of a URL, trailing slashes ignored.
pub open spec fn pr_number_of(url: Seq<char>) -> Option<i64> {
    parse_i64(last_segment(trim_end_char(url, '/'), '/'))
}

/// The bounds of the last path segment of `v`, trailing slashes ignored.
fn last_segment_bounds(v: &Vec<char>) -> (r: (usize, usize))
    ensures
        r.0 <= r.1 <= v@.len(),
        v@.subrange(r.0 as int, r.1 as int) == last_segment(trim_end_char(v@, '/'), '/'),
{
    let mut hi = v.len();
    proof {
        assert(v@.subrange(0, v@.len() as int) =~= v@);
    }
    while hi > 0 && v[hi - 1] == '/'
        invariant
            hi <= v@.len(),
            trim_end_char(v@, '/') == trim_end_char(v@.subrange(0, hi as int), '/'),
        decreases hi,
    {
        proof {
            assert(v@.subrange(0, hi as int).drop_last() =~= v@.subrange(0, hi - 1));
        }
        hi = hi - 1;
    }
    let mut lo = hi;
    proof {
        assert(v@.subrange(lo as int, hi as int) =~= Seq::<char>::empty());
        assert(last_segment(v@.subrange(0, hi as int), '/') =~= last_segment(
            v@.subrange(0, lo as int),
            '/',
        ) + v@.subrange(lo as int, hi as int));
    }
    while lo > 0 && v[lo - 1] != '/'
        invariant
            lo <= hi <= v@.len(),
            hi == 0 || v@[hi - 1] != '/',
            trim_end_char(v@, '/') == v@.subrange(0, hi as int),
            last_segment(v@.subrange(0, hi as int), '/') == last_segment(
                v@.subrange(0, lo as int),
                '/',
            ) + v@.subrange(lo as int, hi as int),
        decreases lo,
    {
        proof {
            let s = v@.subrange(0, lo as int);
            assert(s.drop_last() =~= v@.subrange(0, lo - 1));
            assert(v@.subrange(lo - 1, hi as int) =~= seq![v@[lo - 1]] + v@.subrange(
                lo as int,
                hi as int,
            ));
            assert(last_segment(s, '/') == last_segment(v@.subrange(0, lo - 1), '/').push(
                v@[lo - 1],
            ));
            assert(last_segment(v@.subrange(0, lo - 1), '/').push(v@[lo - 1]) + v@.subrange(
                lo as int,
                hi as int,
            ) =~= last_segment(v@.subrange(0, lo - 1), '/') + v@.subrange(lo - 1, hi as int));
        }
        lo = lo - 1;
    }
    proof {
        assert(last_segment(v@.subrange(0, lo as int), '/') =~= Seq::<char>::empty());
        assert(Seq::<char>::empty() + v@.subrange(lo as int, hi as int) =~= v@.subrange(
            lo as int,
            hi as int,
        ));
    }
    (lo, hi)
}

/// The number in the last path segment of `v`, trailing slashes ignored.
pub(crate) fn last_segment_number(v: &Vec<char>) -> (r: Option<i64>)
    ensures
        r == pr_number_of(v@),
{
    let (lo, hi) = last_segment_bounds(v);
    parse_i64_range(v, lo, hi)
}

/// The last path segment of `v`, trailing slashes ignored.
pub(crate) fn last_segment_text(v: &Vec<char>) -> (r: String)
    ensures
        r@ == last_segment(trim_end_char(v@, '/'), '/'),
{
    let (lo, hi) = last_segment_bounds(v);
    crate::text::string_of_range(v, lo, hi)
}

/// Extract the PR/issue number from a GitHub `issue_url` (last path
/// segment). Returns `None` if the URL doesn't end with a numeric segment.
pub fn pr_number_from_url(url: &str) -> (r: Option<i64>)
    ensures
        r == pr_number_of(url@),
{
    let v = chars_of(url);
    last_segment_number(&v)
}

proof fn lemma_last_segment_after(x: Seq<char>, d: Seq<char>, c: char)
    requires
        forall|i: int| 0 <= i < d.len() ==> d[i] != c,
    ensures
        last_segment(x.push(c) + d, c) == d,
    decreases d.len(),
{
    let s = x.push(c) + d;
    if d.len() == 0 {
        assert(s =~= x.push(c));
    } else {
        assert(s.drop_last() =~= x.push(c) + d.drop_last());
        assert(s.last() == d.last());
        lemma_last_segment_after(x, d.drop_last(), c);
        assert(d.drop_last().push(d.last()) =~= d);
    }
}

/// A URL whose last path segment is the decimal form of `n`, with or
/// without one trailing slash, gives `n` back.
pub proof fn lemma_pr_number_of_url(prefix: Seq<char>, n: i64)
    ensures
        pr_number_of(prefix.push('/') + int_dec(n as int)) == Some(n),
        pr_number_of((prefix.push('/') + int_dec(n as int)).push('/')) == Some(n),
{
    let d = int_dec(n as int);
    let m: nat = if n < 0 {
        (-n) as nat
    } else {
        n as nat
    };
    lemma_dec_digits(m);
    assert forall|i: int| 0 <= i < d.len() implies d[i] != '/' by {
        if n < 0 {
            if i > 0 {
                assert(d[i] == dec(m)[i - 1]);
                assert(is_digit(dec(m)[i - 1]));
            }
        } else {
            assert(is_digit(dec(m)[i]));
        }
    }
    let s = prefix.push('/') + d;
    assert(d.len() > 0);
    assert(s.last() == d.last());
    assert(trim_end_char(s, '/') == s);
    assert(s.push('/').drop_last() =~= s);
    assert(trim_end_char(s.push('/'), '/') == s);
    lemma_last_segment_after(prefix, d, '/');
    crate::text::lemma_parse_i64_int_dec(n);
}

// ──────────────────────────── reply texts ─────────────────────────────

/// The reply to a trigger from a user who is not on the allowlist.
pub open spec fn not_allowed_text(
    login: Seq<char>,
    comment_url: Seq<char>,
    allowed: Seq<Seq<char>>,
) -> Seq<char> {
    "Hi @"@ + login + ", thanks for the request ("@ + comment_url
        + "). Only whitelisted users can trigger benchmarks. Allowed users: "@ + allowed_markdown(
        allowed,
    ) + "."@
}

/// Build the "not allowed" reply posted when a non-whitelisted user
/// triggers a benchmark.
pub fn not_allowed_message(login: &str, comment_url: &str, allowed_users: &Vec<String>) -> (r:
    String)
    ensures
        r@ == not_allowed_text(login@, comment_url@, views(allowed_users@)),
{
    let md = crate::benchmarks::allowed_users_markdown(allowed_users);
    let mut s = String::new();
    push_str(&mut s, "Hi @");
    push_str(&mut s, login);
    push_str(&mut s, ", thanks for the request (");
    push_str(&mut s, comment_url);
    push_str(
        &mut s,
        "). Only whitelisted users can trigger benchmarks. Allowed users: ",
    );
    push_str(&mut s, md.as_str());
    push_str(&mut s, ".");
    s
}

/// One row of the queue table.
pub open spec fn queue_row(j: BenchmarkJob) -> Seq<char> {
    "| [#"@ + int_dec(j.comment_id as int) + "]("@ + j.pr_url@ + "#issuecomment-"@ + int_dec(
        j.comment_id as int,
    ) + ") | "@ + j.repo@ + " | #"@ + int_dec(j.pr_number as int) + " | "@ + j.login@ + " | "@
        + j.benchmarks@ + " | "@ + j.status@ + " |"@
}

/// The first line of a queue reply.
pub open spec fn queue_greeting(login: Seq<char>, comment_url: Seq<char>) -> Seq<char> {
    "Hi @"@ + login + ", you asked to view the benchmark queue ("@ + comment_url + ").\n"@
}

/// The lines of a queue reply.
pub open spec fn queue_lines(login: Seq<char>, comment_url: Seq<char>, jobs: Seq<BenchmarkJob>) -> Seq<
    Seq<char>,
> {
    if jobs.len() == 0 {
        seq![queue_greeting(login, comment_url), "No pending jobs."@]
    } else {
        seq![
            queue_greeting(login, comment_url),
            "| Comment | Repo | PR | User | Benchmarks | Status |"@,
            "| --- | --- | --- | --- | --- | --- |"@,
        ] + jobs.map_values(|j: BenchmarkJob| queue_row(j))
    }
}

/// The reply to a "show benchmark queue" request.
pub open spec fn queue_text(login: Seq<char>, comment_url: Seq<char>, jobs: Seq<BenchmarkJob>) -> Seq<
    char,
> {
    join(queue_lines(login, comment_url, jobs), "\n"@)
}

fn queue_row_string(j: &BenchmarkJob) -> (r: String)
    ensures
        r@ == queue_row(*j),
{
    let cid = i64_to_string(j.comment_id);
    let pr = i64_to_string(j.pr_number);
    let mut s = String::new();
    push_str(&mut s, "| [#");
    push_str(&mut s, cid.as_str());
    push_str(&mut s, "](");
    push_str(&mut s, j.pr_url.as_str());
    push_str(&mut s, "#issuecomment-");
    push_str(&mut s, cid.as_str());
    push_str(&mut s, ") | ");
    push_str(&mut s, j.repo.as_str());
    push_str(&mut s, " | #");
    push_str(&mut s, pr.as_str());
    push_str(&mut s, " | ");
    push_str(&mut s, j.login.as_str());
    push_str(&mut s, " | ");
    push_str(&mut s, j.benchmarks.as_str());
    push_str(&mut s, " | ");
    push_str(&mut s, j.status.as_str());
    push_str(&mut s, " |");
    s
}

/// Build a markdown table of pending/active jobs for a "show benchmark
/// queue" reply.
pub fn format_queue_message(login: &str, comment_url: &str, jobs: &[BenchmarkJob]) -> (r: String)
    ensures
        r@ == queue_text(login@, comment_url@, jobs@),
{
    let mut lines: Vec<String> = Vec::new();
    let mut first = String::new();
    push_str(&mut first, "Hi @");
    push_str(&mut first, login);
    push_str(&mut first, ", you asked to view the benchmark queue (");
    push_str(&mut first, comment_url);
    push_str(&mut first, ").\n");
    lines.push(first);
    if jobs.len() == 0 {
        lines.push(crate::text::to_owned_string("No pending jobs."));
        proof {
            assert(views(lines@) =~= queue_lines(login@, comment_url@, jobs@));
        }
    } else {
        lines.push(
            crate::text::to_owned_string("| Comment | Repo | PR | User | Benchmarks | Status |"),
        );
        lines.push(crate::text::to_owned_string("| --- | --- | --- | --- | --- | --- |"));
        let ghost head = views(lines@);
        let mut k: usize = 0;
        while k < jobs.len()
            invariant
                0 <= k <= jobs@.len(),
                head.len() == 3,
                views(lines@) == head + jobs@.take(k as int).map_values(
                    |j: BenchmarkJob| queue_row(j),
                ),
            decreases jobs@.len() - k,
        {
            let row = queue_row_string(&jobs[k]);
            let ghost before = lines@;
            lines.push(row);
            proof {
                assert(views(lines@) =~= views(before).push(row@));
                assert(jobs@.take(k + 1).map_values(|j: BenchmarkJob| queue_row(j)) =~= jobs@.take(
                    k as int,
                ).map_values(|j: BenchmarkJob| queue_row(j)).push(queue_row(jobs@[k as int])));
            }
            k = k + 1;
        }
        proof {
            assert(jobs@.take(jobs@.len() as int) =~= jobs@);
            assert(views(lines@) =~= queue_lines(login@, comment_url@, jobs@));
        }
    }
    proof {
        assert(lines@.map_values(|p: String| p@) =~= views(lines@));
    }
    join_strings(&lines, "\n")
}


// ─────────────────────────── comment handling ─────────────────────────

/// One job row to insert for a scheduled request: its benchmark list as
/// JSON text and its job type.
#[derive(Debug, Clone)]
pub struct PlannedJob {
    pub benchmarks: String,
    pub job_type: String,
}

/// The job rows a scheduled request turns into, sharing the PR and the
/// environment of the request.
#[derive(Debug, Clone)]
pub struct JobSchedule {
    pub pr_number: i64,
    pub pr_url: String,
    /// Shared environment variables as a JSON object.
    pub env_vars: String,
    pub baseline_env_vars: String,
    pub changed_env_vars: String,
    pub baseline_ref: Option<String>,
    pub changed_ref: Option<String>,
    pub jobs: Vec<PlannedJob>,
}

fn opt_str<'a>(s: &'a Option<String>) -> (r: Option<&'a str>)
    ensures
        match r {
            Some(x) => *s matches Some(y) && x@ == y@,
            None => s is None,
        },
{
    match s {
        Some(x) => Some(x.as_str()),
        None => None,
    }
}

impl JobSchedule {
    /// The rows to insert for comment `comment_id` of `login` on `repo`:
    /// one per planned job, sharing the PR and the environment.
    pub fn job_inserts<'a>(&'a self, comment_id: i64, repo: &'a str, login: &'a str) -> (r: Vec<
        JobInsert<'a>,
    >)
        ensures
            r@.len() == self.jobs@.len(),
            forall|i: int|
                0 <= i < r@.len() ==> {
                    let x = #[trigger] r@[i];
                    &&& x.comment_id == comment_id
                    &&& x.repo@ == repo@
                    &&& x.pr_number == self.pr_number
                    &&& x.pr_url@ == self.pr_url@
                    &&& x.login@ == login@
                    &&& x.benchmarks@ == self.jobs@[i].benchmarks@
                    &&& x.env_vars@ == self.env_vars@
                    &&& x.baseline_env_vars@ == self.baseline_env_vars@
                    &&& x.changed_env_vars@ == self.changed_env_vars@
                    &&& match x.baseline_ref {
                        Some(b) => self.baseline_ref matches Some(c) && b@ == c@,
                        None => self.baseline_ref is None,
                    }
                    &&& match x.changed_ref {
                        Some(b) => self.changed_ref matches Some(c) && b@ == c@,
                        None => self.changed_ref is None,
                    }
                    &&& x.job_type@ == self.jobs@[i].job_type@
                },
    {
        let mut out: Vec<JobInsert<'a>> = Vec::new();
        let mut k: usize = 0;
        while k < self.jobs.len()
            invariant
                0 <= k <= self.jobs@.len(),
                out@.len() == k,
                forall|i: int|
                    0 <= i < k ==> {
                        let x = #[trigger] out@[i];
                        &&& x.comment_id == comment_id
                        &&& x.repo@ == repo@
                        &&& x.pr_number == self.pr_number
                        &&& x.pr_url@ == self.pr_url@
                        &&& x.login@ == login@
                        &&& x.benchmarks@ == self.jobs@[i].benchmarks@
                        &&& x.env_vars@ == self.env_vars@
                        &&& x.baseline_env_vars@ == self.baseline_env_vars@
                        &&& x.changed_env_vars@ == self.changed_env_vars@
                        &&& match x.baseline_ref {
                            Some(b) => self.baseline_ref matches Some(c) && b@ == c@,
                            None => self.baseline_ref is None,
                        }
                        &&& match x.changed_ref {
                            Some(b) => self.changed_ref matches Some(c) && b@ == c@,
                            None => self.changed_ref is None,
                        }
                        &&& x.job_type@ == self.jobs@[i].job_type@
                    },
            decreases self.jobs@.len() - k,
        {
            let job = &self.jobs[k];
            out.push(
                JobInsert {
                    comment_id,
                    repo,
                    pr_number: self.pr_number,
                    pr_url: self.pr_url.as_str(),
                    login,
                    benchmarks: job.benchmarks.as_str(),
                    env_vars: self.env_vars.as_str(),
                    baseline_env_vars: self.baseline_env_vars.as_str(),
                    changed_env_vars: self.changed_env_vars.as_str(),
                    baseline_ref: opt_str(&self.baseline_ref),
                    changed_ref: opt_str(&self.changed_ref),
                    job_type: job.job_type.as_str(),
                },
            );
            k = k + 1;
        }
        out
    }
}

/// What to do with an unseen comment. Every variant but `Skip` marks the
/// comment seen once its reply (if any) has been posted; `Schedule` marks
/// it seen before inserting the jobs, then reacts with a rocket.
#[derive(Debug, Clone)]
pub enum CommentPlan {
    /// The issue URL ends in no number: leave the comment alone.
    Skip,
    /// Reply with the queue table.
    ShowQueue { pr_number: i64 },
    /// Reply with `message`.
    Reply { pr_number: i64, message: String },
    /// Nothing to answer.
    MarkSeen { pr_number: i64 },
    /// Insert the jobs of a valid request from an allowed user.
    Schedule(JobSchedule),
}

pub struct ScheduleView {
    pub pr_number: i64,
    pub pr_url: Seq<char>,
    pub env_vars: Seq<char>,
    pub baseline_env_vars: Seq<char>,
    pub changed_env_vars: Seq<char>,
    pub baseline_ref: Option<Seq<char>>,
    pub changed_ref: Option<Seq<char>>,
    /// (benchmarks JSON, job type) of each row.
    pub jobs: Seq<(Seq<char>, Seq<char>)>,
}

pub enum PlanView {
    Skip,
    ShowQueue(i64),
    Reply(i64, Seq<char>),
    MarkSeen(i64),
    Schedule(ScheduleView),
}

pub open spec fn schedule_view(s: JobSchedule) -> ScheduleView {
    ScheduleView {
        pr_number: s.pr_number,
        pr_url: s.pr_url@,
        env_vars: s.env_vars@,
        baseline_env_vars: s.baseline_env_vars@,
        changed_env_vars: s.changed_env_vars@,
        baseline_ref: opt_view(s.baseline_ref),
        changed_ref: opt_view(s.changed_ref),
        jobs: s.jobs@.map_values(|j: PlannedJob| (j.benchmarks@, j.job_type@)),
    }
}

pub open spec fn plan_view(p: CommentPlan) -> PlanView {
    match p {
        CommentPlan::Skip => PlanView::Skip,
        CommentPlan::ShowQueue { pr_number } => PlanView::ShowQueue(pr_number),
        CommentPlan::Reply { pr_number, message } => PlanView::Reply(pr_number, message@),
        CommentPlan::MarkSeen { pr_number } => PlanView::MarkSeen(pr_number),
        CommentPlan::Schedule(s) => PlanView::Schedule(schedule_view(s)),
    }
}

/// The job type a benchmark name is inserted with: its class, or
/// `standard` for a name the repo does not classify.
pub open spec fn job_type_or_standard(r: RepoEntryView, name: Seq<char>) -> Seq<char> {
    match classify(r, name) {
        Some(t) => job_type_text(t),
        None => "standard"@,
    }
}

/// The rows of a request: one `standard` row for the default suite,
/// otherwise one row per named benchmark.
pub open spec fn planned_jobs(r: RepoEntryView, names: Seq<Seq<char>>) -> Seq<(Seq<char>, Seq<char>)> {
    if names.len() == 0 {
        seq![(json_string_array(names), "standard"@)]
    } else {
        names.map_values(|n: Seq<char>| (json_string_array(seq![n]), job_type_or_standard(r, n)))
    }
}

/// The web URL of a pull request.
pub open spec fn pr_web_url(repo: Seq<char>, pr_number: i64) -> Seq<char> {
    "https://github.com/"@ + repo + "/pull/"@ + int_dec(pr_number as int)
}

pub open spec fn schedule_of(
    r: RepoEntryView,
    repo: Seq<char>,
    pr_number: i64,
    req: RequestView,
) -> ScheduleView {
    ScheduleView {
        pr_number,
        pr_url: pr_web_url(repo, pr_number),
        env_vars: json_string_object(req.env_vars),
        baseline_env_vars: json_string_object(req.baseline_env_vars),
        changed_env_vars: json_string_object(req.changed_env_vars),
        baseline_ref: req.baseline_ref,
        changed_ref: req.changed_ref,
        jobs: planned_jobs(r, req.benchmarks),
    }
}

/// The names after `run benchmark` on the trigger line.
pub open spec fn requested_names(body: Seq<char>) -> Seq<Seq<char>> {
    let w = split_ws(trigger_line(body));
    if w.len() >= 2 {
        w.skip(2)
    } else {
        seq![]
    }
}

/// The reply to a trigger that names no runnable benchmark.
pub open spec fn help_text(
    login: Seq<char>,
    comment_url: Seq<char>,
    r: RepoEntryView,
    requested: Seq<Seq<char>>,
) -> Seq<char> {
    "Hi @"@ + login + ", thanks for the request ("@ + comment_url + ").\n\n"@ + supported_message(
        r,
        requested,
    )
}

/// The reply to a trigger whose configuration block cannot be read: the
/// reason, as [`detect_benchmark`] gives it.
pub open spec fn config_error_text(login: Seq<char>, comment_url: Seq<char>, error: Seq<char>) -> Seq<
    char,
> {
    "Hi @"@ + login + ", thanks for the request ("@ + comment_url + ").\n\n"@ + error
}

/// What the poller does with an unseen comment of `login` with `body`,
/// posted at `comment_url` on the issue at `issue_url` of `repo`.
pub open spec fn comment_plan(
    allowed: Seq<Seq<char>>,
    r: RepoEntryView,
    repo: Seq<char>,
    body: Seq<char>,
    login: Seq<char>,
    comment_url: Seq<char>,
    issue_url: Seq<char>,
    parsed: Result<CommentConfig, String>,
) -> PlanView {
    match pr_number_of(issue_url) {
        None => PlanView::Skip,
        Some(pr) => if eq_ignore_ascii_case(trim(body), "show benchmark queue"@) {
            PlanView::ShowQueue(pr)
        } else {
            match detect_spec(r, body, parsed) {
                DetectView::Parsed(req) => if !allowed.contains(login) {
                    PlanView::Reply(pr, not_allowed_text(login, comment_url, allowed))
                } else {
                    PlanView::Schedule(schedule_of(r, repo, pr, req))
                },
                DetectView::ConfigError(e) => if !allowed.contains(login) {
                    PlanView::Reply(pr, not_allowed_text(login, comment_url, allowed))
                } else {
                    PlanView::Reply(pr, config_error_text(login, comment_url, e))
                },
                DetectView::NotTriggered => if lower_starts_with(trim(trigger_line(body)), "run benchmark"@) {
                    if !allowed.contains(login) {
                        PlanView::Reply(pr, not_allowed_text(login, comment_url, allowed))
                    } else {
                        PlanView::Reply(pr, help_text(login, comment_url, r, requested_names(body)))
                    }
                } else {
                    PlanView::MarkSeen(pr)
                },
            }
        },
    }
}

/// The author's login of a comment, or empty.
pub open spec fn login_of(c: GitHubComment) -> Seq<char> {
    match c.user {
        Some(u) => u.login@,
        None => Seq::empty(),
    }
}

fn requested_names_exec(body: &str) -> (r: Vec<String>)
    ensures
        views(r@) == requested_names(body@),
{
    let v = chars_of(body);
    let (a, b) = crate::benchmarks::first_line_bounds(&v);
    let ranges = word_ranges(&v, a, b);
    let words = strings_of_ranges(&v, &ranges);
    let ghost w = split_ws(trigger_line(body@));
    proof {
        assert(range_texts(v@, ranges@) == w);
        assert(views(words@) =~= w);
    }
    let mut out: Vec<String> = Vec::new();
    if words.len() < 2 {
        proof {
            assert(views(out@) =~= Seq::<Seq<char>>::empty());
        }
        return out;
    }
    let mut k: usize = 2;
    while k < words.len()
        invariant
            2 <= k <= words@.len(),
            views(words@) == w,
            views(out@) == w.subrange(2, k as int),
        decreases words@.len() - k,
    {
        let ghost before = out@;
        out.push(words[k].clone());
        proof {
            assert(views(out@) =~= views(before).push(words@[k as int]@));
            assert(w.subrange(2, k + 1) =~= w.subrange(2, k as int).push(w[k as int]));
        }
        k = k + 1;
    }
    proof {
        assert(w.subrange(2, w.len() as int) =~= w.skip(2));
    }
    out
}

fn planned_jobs_exec(repo_entry: &RepoEntry, names: &Vec<String>) -> (r: Vec<PlannedJob>)
    ensures
        r@.map_values(|j: PlannedJob| (j.benchmarks@, j.job_type@)) == planned_jobs(
            repo_entry@,
            views(names@),
        ),
{
    let ghost want = planned_jobs(repo_entry@, views(names@));
    let mut out: Vec<PlannedJob> = Vec::new();
    if names.len() == 0 {
        let benchmarks = to_json_array(names);
        out.push(PlannedJob { benchmarks, job_type: to_owned_string("standard") });
        proof {
            assert(out@.map_values(|j: PlannedJob| (j.benchmarks@, j.job_type@)) =~= want);
        }
        return out;
    }
    let mut k: usize = 0;
    while k < names.len()
        invariant
            0 <= k <= names@.len(),
            names@.len() > 0,
            want == planned_jobs(repo_entry@, views(names@)),
            out@.map_values(|j: PlannedJob| (j.benchmarks@, j.job_type@)) == want.take(k as int),
        decreases names@.len() - k,
    {
        let mut single: Vec<String> = Vec::new();
        single.push(names[k].clone());
        let benchmarks = to_json_array(&single);
        let job_type = match repo_entry.classify_benchmark(names[k].as_str()) {
            Some(t) => to_owned_string(t.as_str()),
            None => to_owned_string("standard"),
        };
        let ghost before = out@;
        proof {
            assert(views(single@) =~= seq![names@[k as int]@]);
            assert(want[k as int] == (json_string_array(seq![names@[k as int]@]), job_type_or_standard(repo_entry@, names@[k as int]@)));
        }
        out.push(PlannedJob { benchmarks, job_type });
        proof {
            assert(out@.map_values(|j: PlannedJob| (j.benchmarks@, j.job_type@)) =~= before.map_values(
                |j: PlannedJob| (j.benchmarks@, j.job_type@),
            ).push(want[k as int]));
            assert(want.take(k + 1) =~= want.take(k as int).push(want[k as int]));
        }
        k = k + 1;
    }
    proof {
        assert(want.take(names@.len() as int) =~= want);
    }
    out
}

fn pr_web_url_exec(repo: &str, pr_number: i64) -> (r: String)
    ensures
        r@ == pr_web_url(repo@, pr_number),
{
    let n = i64_to_string(pr_number);
    let mut s = String::new();
    push_str(&mut s, "https://github.com/");
    push_str(&mut s, repo);
    push_str(&mut s, "/pull/");
    push_str(&mut s, n.as_str());
    s
}

/// Decide what to do with an unseen comment on `repo`: reply with the
/// queue, schedule the jobs of a valid trigger from an allowed user,
/// explain a refused or malformed trigger, or just mark it seen.
pub fn plan_comment(
    bench_cfg: &BenchmarkConfig,
    repo: &str,
    repo_entry: &RepoEntry,
    comment: &GitHubComment,
    parsed: &Result<CommentConfig, String>,
) -> (r: CommentPlan)
    ensures
        plan_view(r) == comment_plan(
            views(bench_cfg.allowed_users@),
            repo_entry@,
            repo@,
            text_or_empty(comment.body),
            login_of(*comment),
            text_or_empty(comment.html_url),
            text_or_empty(comment.issue_url),
            *parsed,
        ),
{
    let body = comment.body_text();
    let login = comment.login();
    let comment_url = comment.url();
    let issue_url = comment.issue_url_str();
    let pr_number = match pr_number_from_url(issue_url) {
        Some(n) => n,
        None => {
            return CommentPlan::Skip;
        },
    };
    if is_queue_request(body) {
        return CommentPlan::ShowQueue { pr_number };
    }
    let allowed = bench_cfg.is_allowed(login);
    match detect_benchmark(repo_entry, body, parsed) {
        DetectResult::Parsed(request) => {
            if !allowed {
                let message = not_allowed_message(login, comment_url, &bench_cfg.allowed_users);
                return CommentPlan::Reply { pr_number, message };
            }
            let pr_url = pr_web_url_exec(repo, pr_number);
            let env_vars = to_json_object(&request.env_vars.entries);
            let baseline_env_vars = to_json_object(&request.baseline_env_vars.entries);
            let changed_env_vars = to_json_object(&request.changed_env_vars.entries);
            let jobs = planned_jobs_exec(repo_entry, &request.benchmarks);
            let s = JobSchedule {
                pr_number,
                pr_url,
                env_vars,
                baseline_env_vars,
                changed_env_vars,
                baseline_ref: request.baseline_ref,
                changed_ref: request.changed_ref,
                jobs,
            };
            CommentPlan::Schedule(s)
        },
        DetectResult::ConfigError(error) => {
            if !allowed {
                let message = not_allowed_message(login, comment_url, &bench_cfg.allowed_users);
                return CommentPlan::Reply { pr_number, message };
            }
            let mut message = String::new();
            push_str(&mut message, "Hi @");
            push_str(&mut message, login);
            push_str(&mut message, ", thanks for the request (");
            push_str(&mut message, comment_url);
            push_str(&mut message, ").\n\n");
            push_str(&mut message, error.as_str());
            proof {
                assert(message@ =~= config_error_text(login@, comment_url@, error@));
            }
            CommentPlan::Reply { pr_number, message }
        },
        DetectResult::NoTrigger => {
            if is_benchmark_trigger(body) {
                if !allowed {
                    let message = not_allowed_message(
                        login,
                        comment_url,
                        &bench_cfg.allowed_users,
                    );
                    CommentPlan::Reply { pr_number, message }
                } else {
                    let requested = requested_names_exec(body);
                    let help = supported_benchmarks_message(repo_entry, requested.as_slice());
                    let mut message = String::new();
                    push_str(&mut message, "Hi @");
                    push_str(&mut message, login);
                    push_str(&mut message, ", thanks for the request (");
                    push_str(&mut message, comment_url);
                    push_str(&mut message, ").\n\n");
                    push_str(&mut message, help.as_str());
                    CommentPlan::Reply { pr_number, message }
                }
            } else {
                CommentPlan::MarkSeen { pr_number }
            }
        },
    }
}

/// A request is scheduled only for a comment whose author is on the
/// allowlist.
pub proof fn lemma_schedule_needs_allowed_user(
    allowed: Seq<Seq<char>>,
    r: RepoEntryView,
    repo: Seq<char>,
    body: Seq<char>,
    login: Seq<char>,
    comment_url: Seq<char>,
    issue_url: Seq<char>,
    parsed: Result<CommentConfig, String>,
)
    requires
        comment_plan(allowed, r, repo, body, login, comment_url, issue_url, parsed) is Schedule,
    ensures
        allowed.contains(login),
        pr_number_of(issue_url) is Some,
{
}

/// A comment from a user off the allowlist never schedules anything: it is
/// skipped, answered, or only marked seen.
pub proof fn lemma_unlisted_user_never_schedules(
    allowed: Seq<Seq<char>>,
    r: RepoEntryView,
    repo: Seq<char>,
    body: Seq<char>,
    login: Seq<char>,
    comment_url: Seq<char>,
    issue_url: Seq<char>,
    parsed: Result<CommentConfig, String>,
)
    requires
        !allowed.contains(login),
    ensures
        !(comment_plan(allowed, r, repo, body, login, comment_url, issue_url, parsed) is Schedule),
{
}

/// A named request gives one row per name, each holding only that name and
/// typed by the repo's classification of it.
pub proof fn lemma_one_row_per_named_benchmark(r: RepoEntryView, names: Seq<Seq<char>>, i: int)
    requires
        names.len() > 0,
        0 <= i < names.len(),
    ensures
        planned_jobs(r, names).len() == names.len(),
        planned_jobs(r, names)[i] == (
            json_string_array(seq![names[i]]),
            job_type_or_standard(r, names[i]),
        ),
{
}

/// The queue table has one row per job, in the order given: after the
/// greeting, the header and the separator, line `3 + i` is the row of
/// `jobs[i]`, and there are no other lines.
pub proof fn lemma_queue_one_row_per_job(login: Seq<char>, comment_url: Seq<char>, jobs: Seq<BenchmarkJob>)
    ensures
        jobs.len() > 0 ==> queue_lines(login, comment_url, jobs).len() == 3 + jobs.len(),
        jobs.len() > 0 ==> forall|i: int|
            0 <= i < jobs.len() ==> queue_lines(login, comment_url, jobs)[3 + i] == queue_row(
                #[trigger] jobs[i],
            ),
        jobs.len() == 0 ==> queue_lines(login, comment_url, jobs) == seq![
            queue_greeting(login, comment_url),
            "No pending jobs."@,
        ],
{
}

/// Queuing one more job adds exactly its row at the end of the reply, and
/// the reply for one job is the greeting, the table head and that job's
/// row.
pub proof fn lemma_queue_text_appends_row(
    login: Seq<char>,
    comment_url: Seq<char>,
    jobs: Seq<BenchmarkJob>,
    j: BenchmarkJob,
)
    ensures
        jobs.len() > 0 ==> queue_text(login, comment_url, jobs.push(j)) == queue_text(
            login,
            comment_url,
            jobs,
        ) + "\n"@ + queue_row(j),
        queue_text(login, comment_url, seq![j]) == queue_greeting(login, comment_url) + "\n"@
            + "| Comment | Repo | PR | User | Benchmarks | Status |"@ + "\n"@
            + "| --- | --- | --- | --- | --- | --- |"@ + "\n"@ + queue_row(j),
{
    let head = seq![
        queue_greeting(login, comment_url),
        "| Comment | Repo | PR | User | Benchmarks | Status |"@,
        "| --- | --- | --- | --- | --- | --- |"@,
    ];
    let f = |x: BenchmarkJob| queue_row(x);
    if jobs.len() > 0 {
        let before = queue_lines(login, comment_url, jobs);
        let after = queue_lines(login, comment_url, jobs.push(j));
        assert(after =~= before.push(queue_row(j)));
        assert(after.drop_last() =~= before);
    }
    let one = queue_lines(login, comment_url, seq![j]);
    assert(one =~= seq![head[0], head[1], head[2], queue_row(j)]);
    assert(one.drop_last() =~= seq![head[0], head[1], head[2]]);
    assert(one.drop_last().drop_last() =~= seq![head[0], head[1]]);
    assert(one.drop_last().drop_last().drop_last() =~= seq![head[0]]);
    let nl = "\n"@;
    let j1 = join(seq![head[0]], nl);
    assert(j1 == head[0]);
    let j2 = join(seq![head[0], head[1]], nl);
    assert(seq![head[0], head[1]].drop_last() =~= seq![head[0]]);
    assert(j2 == j1 + nl + head[1]);
    let j3 = join(seq![head[0], head[1], head[2]], nl);
    assert(seq![head[0], head[1], head[2]].drop_last() =~= seq![head[0], head[1]]);
    assert(j3 == j2 + nl + head[2]);
    assert(join(one, nl) == j3 + nl + queue_row(j));
    assert(queue_text(login, comment_url, seq![j]) =~= queue_greeting(login, comment_url) + nl
        + "| Comment | Repo | PR | User | Benchmarks | Status |"@ + nl
        + "| --- | --- | --- | --- | --- | --- |"@ + nl + queue_row(j));
}

} // verus!
