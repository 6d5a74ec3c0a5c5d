//! The criterion benchmark run: the `cargo bench` commands it runs on the
//! merge-base and the PR branch, and the comments it posts.

use vstd::prelude::*;
use vstd::string::StringSliceAdditionalSpecFns;
use vstd::utf8::{decode_utf8, encode_utf8, is_char_boundary};

use crate::text::{push_str, to_owned_string, views};

verus! {

/// The `cargo` arguments that build or run criterion benchmark `name`.
pub open spec fn bench_args_of(name: Seq<char>) -> Seq<Seq<char>> {
    seq!["bench"@, "--features=parquet"@, "--bench"@, name]
}

/// Build cargo bench args for criterion.
pub fn bench_command_args(bench_name: &str) -> (r: Vec<String>)
    ensures
        views(r@) == bench_args_of(bench_name@),
{
    let mut v: Vec<String> = Vec::new();
    v.push(to_owned_string("bench"));
    v.push(to_owned_string("--features=parquet"));
    v.push(to_owned_string("--bench"));
    v.push(to_owned_string(bench_name));
    proof {
        assert(views(v@) =~= bench_args_of(bench_name@));
    }
    v
}

/// The arguments of a benchmark run that saves its results as criterion
/// baseline `baseline`, restricted to `filter` when one is given.
pub open spec fn run_args_of(name: Seq<char>, baseline: Seq<char>, filter: Seq<char>) -> Seq<
    Seq<char>,
> {
    bench_args_of(name) + seq!["--"@, "--save-baseline"@, baseline] + if filter.len() > 0 {
        seq![filter]
    } else {
        seq![]
    }
}

/// The `cargo` arguments of a run saved as baseline `baseline`.
pub fn bench_run_args(bench_name: &str, baseline: &str, bench_filter: &str) -> (r: Vec<String>)
    ensures
        views(r@) == run_args_of(bench_name@, baseline@, bench_filter@),
{
    let mut v = bench_command_args(bench_name);
    v.push(to_owned_string("--"));
    v.push(to_owned_string("--save-baseline"));
    v.push(to_owned_string(baseline));
    if !bench_filter.is_empty() {
        v.push(to_owned_string(bench_filter));
    }
    proof {
        assert(views(v@) =~= run_args_of(bench_name@, baseline@, bench_filter@));
    }
    v
}

/// The `cargo` arguments that only compile the benchmark.
pub fn bench_build_args(bench_name: &str) -> (r: Vec<String>)
    ensures
        views(r@) == bench_args_of(bench_name@).push("--no-run"@),
{
    let mut v = bench_command_args(bench_name);
    v.push(to_owned_string("--no-run"));
    proof {
        assert(views(v@) =~= bench_args_of(bench_name@).push("--no-run"@));
    }
    v
}

/// The program and arguments that run `program args` with the extra
/// environment `env` (`KEY=VALUE` strings) through `env`, or directly when
/// there is none.
pub open spec fn with_env_of(env: Seq<Seq<char>>, program: Seq<char>, args: Seq<Seq<char>>) -> (
    Seq<char>,
    Seq<Seq<char>>,
) {
    if env.len() == 0 {
        (program, args)
    } else {
        ("env"@, env + seq![program] + args)
    }
}

/// Run `program args` under the extra environment `env`.
pub fn with_env(env: &Vec<String>, program: &str, args: Vec<String>) -> (r: (String, Vec<String>))
    ensures
        (r.0@, views(r.1@)) == with_env_of(views(env@), program@, views(args@)),
{
    if env.len() == 0 {
        return (to_owned_string(program), args);
    }
    let mut v: Vec<String> = Vec::new();
    let mut k: usize = 0;
    while k < env.len()
        invariant
            0 <= k <= env@.len(),
            views(v@) == views(env@).take(k as int),
        decreases env@.len() - k,
    {
        let ghost before = v@;
        v.push(env[k].clone());
        proof {
            assert(views(v@) =~= views(before).push(env@[k as int]@));
            assert(views(env@).take(k + 1) =~= views(env@).take(k as int).push(env@[k as int]@));
        }
        k = k + 1;
    }
    let ghost with_program = views(env@).push(program@);
    v.push(to_owned_string(program));
    proof {
        assert(views(env@).take(env@.len() as int) =~= views(env@));
        assert(views(v@) =~= with_program);
    }
    let mut j: usize = 0;
    while j < args.len()
        invariant
            0 <= j <= args@.len(),
            views(v@) == with_program + views(args@).take(j as int),
        decreases args@.len() - j,
    {
        let ghost before = v@;
        v.push(args[j].clone());
        proof {
            assert(views(v@) =~= views(before).push(args@[j as int]@));
            assert(views(args@).take(j + 1) =~= views(args@).take(j as int).push(args@[j as int]@));
        }
        j = j + 1;
    }
    proof {
        assert(views(args@).take(args@.len() as int) =~= views(args@));
        assert(views(v@) =~= views(env@) + seq![program@] + views(args@));
    }
    (to_owned_string("env"), v)
}

/// The first seven bytes of a commit SHA, as text.
pub open spec fn short_sha_text(sha: Seq<char>) -> Seq<char> {
    let b = encode_utf8(sha);
    decode_utf8(b.subrange(0, if b.len() < 7 { b.len() as int } else { 7 }))
}

/// How the baseline is named in the comments: the custom ref, or the
/// short merge-base SHA.
pub open spec fn baseline_label_of(baseline_ref: Option<Seq<char>>, base_sha: Seq<char>) -> Seq<
    char,
> {
    match baseline_ref {
        Some(r) => r,
        None => short_sha_text(base_sha) + " (merge-base)"@,
    }
}

/// How the baseline is named: the custom baseline ref when one was
/// given, otherwise the first seven bytes of the merge-base SHA.
pub fn baseline_label(baseline_ref: Option<&str>, base_sha: &str) -> (r: String)
    requires
        encode_utf8(base_sha@).len() <= usize::MAX,
        baseline_ref is None ==> is_char_boundary(
            encode_utf8(base_sha@),
            if encode_utf8(base_sha@).len() < 7 {
                encode_utf8(base_sha@).len() as int
            } else {
                7
            },
        ),
    ensures
        r@ == baseline_label_of(
            match baseline_ref {
                Some(b) => Some(b@),
                None => None,
            },
            base_sha@,
        ),
{
    match baseline_ref {
        Some(b) => to_owned_string(b),
        None => {
            let n = base_sha.len();
            let mid = if n < 7 {
                n
            } else {
                7
            };
            proof {
                assert(base_sha.spec_bytes() == encode_utf8(base_sha@));
                assert(n as int == encode_utf8(base_sha@).len());
            }
            let (head, _) = base_sha.split_at(mid);
            proof {
                vstd::utf8::encode_utf8_decode_utf8(head@);
                assert(head.spec_bytes() == encode_utf8(head@));
                assert(head@ == short_sha_text(base_sha@));
            }
            let mut s = to_owned_string(head);
            push_str(&mut s, " (merge-base)");
            s
        },
    }
}

/// The markdown of a comment's CPU details block.
pub open spec fn lscpu_block(lscpu: Seq<char>) -> Seq<char> {
    "<details><summary>CPU Details (lscpu)</summary>\n\n```\n"@ + lscpu + "\n```\n\n</details>\n\n"@
}

/// The report and resource blocks at the end of a result comment.
pub open spec fn result_blocks(report: Seq<char>, resource_section: Seq<char>, footer: Seq<char>) -> Seq<
    char,
> {
    "<details><summary>Details</summary>\n<p>\n\n```\n"@ + report
        + "```\n\n</p>\n</details>\n\n<details><summary>Resource Usage</summary>\n\n"@
        + resource_section + "</details>\n"@ + footer
}

/// The result comment of a criterion comparison.
pub open spec fn criterion_result_text(
    comment_url: Seq<char>,
    report: Seq<char>,
    resource_section: Seq<char>,
    instance_type: Seq<char>,
    pod_resources: Seq<char>,
    lscpu: Seq<char>,
    footer: Seq<char>,
) -> Seq<char> {
    "\u{1f916} Criterion benchmark completed (GKE)"@ + " | [trigger]("@ + comment_url
        + ")\n\n**Instance:** `"@ + instance_type + "` ("@ + pod_resources + ")\n\n"@
        + lscpu_block(lscpu) + result_blocks(report, resource_section, footer)
}

/// The result comment of a new benchmark, run on the branch only.
pub open spec fn branch_only_result_text(
    comment_url: Seq<char>,
    report: Seq<char>,
    resource_section: Seq<char>,
    instance_type: Seq<char>,
    pod_resources: Seq<char>,
    lscpu: Seq<char>,
    footer: Seq<char>,
) -> Seq<char> {
    "\u{1f916} Criterion benchmark completed (GKE)"@ + " | [trigger]("@ + comment_url
        + ")\n\n**Instance:** `"@ + instance_type + "` ("@ + pod_resources + ")\n\n"@
        + lscpu_block(lscpu)
        + "**New benchmark \u{2014} branch-only results (no baseline comparison)**\n\n"@
        + result_blocks(report, resource_section, footer)
}

pub(crate) fn push_lscpu_block(s: &mut String, lscpu: &str)
    ensures
        final(s)@ == old(s)@ + lscpu_block(lscpu@),
{
    push_str(s, "<details><summary>CPU Details (lscpu)</summary>\n\n```\n");
    push_str(s, lscpu);
    push_str(s, "\n```\n\n</details>\n\n");
    proof {
        assert(s@ =~= old(s)@ + lscpu_block(lscpu@));
    }
}

pub(crate) fn push_result_blocks(s: &mut String, report: &str, resource_section: &str, footer: &str)
    ensures
        final(s)@ == old(s)@ + result_blocks(report@, resource_section@, footer@),
{
    push_str(s, "<details><summary>Details</summary>\n<p>\n\n```\n");
    push_str(s, report);
    push_str(
        s,
        "```\n\n</p>\n</details>\n\n<details><summary>Resource Usage</summary>\n\n",
    );
    push_str(s, resource_section);
    push_str(s, "</details>\n");
    push_str(s, footer);
    proof {
        assert(s@ =~= old(s)@ + result_blocks(report@, resource_section@, footer@));
    }
}

pub(crate) fn push_head(s: &mut String, title: &str, comment_url: &str, instance_type: &str, pod_resources: &str)
    ensures
        final(s)@ == old(s)@ + title@ + " | [trigger]("@ + comment_url@ + ")\n\n**Instance:** `"@
            + instance_type@ + "` ("@ + pod_resources@ + ")\n\n"@,
{
    push_str(s, title);
    push_str(s, " | [trigger](");
    push_str(s, comment_url);
    push_str(s, ")\n\n**Instance:** `");
    push_str(s, instance_type);
    push_str(s, "` (");
    push_str(s, pod_resources);
    push_str(s, ")\n\n");
    proof {
        assert(s@ =~= old(s)@ + title@ + " | [trigger]("@ + comment_url@
            + ")\n\n**Instance:** `"@ + instance_type@ + "` ("@ + pod_resources@ + ")\n\n"@);
    }
}

/// Format the result comment body.
pub fn format_result_comment(
    comment_url: &str,
    report: &str,
    resource_section: &str,
    instance_type: &str,
    pod_resources: &str,
    lscpu: &str,
    footer: &str,
) -> (r: String)
    ensures
        r@ == criterion_result_text(
            comment_url@,
            report@,
            resource_section@,
            instance_type@,
            pod_resources@,
            lscpu@,
            footer@,
        ),
{
    let mut s = String::new();
    push_head(
        &mut s,
        "\u{1f916} Criterion benchmark completed (GKE)",
        comment_url,
        instance_type,
        pod_resources,
    );
    push_lscpu_block(&mut s, lscpu);
    push_result_blocks(&mut s, report, resource_section, footer);
    proof {
        assert(s@ =~= criterion_result_text(
            comment_url@,
            report@,
            resource_section@,
            instance_type@,
            pod_resources@,
            lscpu@,
            footer@,
        ));
    }
    s
}

/// Format the result comment body for branch-only runs (no baseline
/// comparison).
pub fn format_branch_only_result_comment(
    comment_url: &str,
    report: &str,
    resource_section: &str,
    instance_type: &str,
    pod_resources: &str,
    lscpu: &str,
    footer: &str,
) -> (r: String)
    ensures
        r@ == branch_only_result_text(
            comment_url@,
            report@,
            resource_section@,
            instance_type@,
            pod_resources@,
            lscpu@,
            footer@,
        ),
{
    let mut s = String::new();
    push_head(
        &mut s,
        "\u{1f916} Criterion benchmark completed (GKE)",
        comment_url,
        instance_type,
        pod_resources,
    );
    push_lscpu_block(&mut s, lscpu);
    push_str(&mut s, "**New benchmark \u{2014} branch-only results (no baseline comparison)**\n\n");
    push_result_blocks(&mut s, report, resource_section, footer);
    proof {
        assert(s@ =~= branch_only_result_text(
            comment_url@,
            report@,
            resource_section@,
            instance_type@,
            pod_resources@,
            lscpu@,
            footer@,
        ));
    }
    s
}

/// The "running" comment of a criterion comparison.
pub open spec fn criterion_running_text(
    comment_url: Seq<char>,
    instance_type: Seq<char>,
    pod_resources: Seq<char>,
    uname: Seq<char>,
    lscpu: Seq<char>,
    changed_display: Seq<char>,
    changed_sha: Seq<char>,
    baseline_label: Seq<char>,
    repo: Seq<char>,
    base_sha: Seq<char>,
    bench_name: Seq<char>,
    bench_filter: Seq<char>,
    footer: Seq<char>,
) -> Seq<char> {
    "\u{1f916} Criterion benchmark running (GKE) | [trigger]("@ + comment_url
        + ")\n**Instance:** `"@ + instance_type + "` ("@ + pod_resources + ") | `"@ + uname
        + "`\n"@ + lscpu_block(lscpu) + "Comparing "@ + changed_display + " ("@ + changed_sha
        + ") to "@ + baseline_label + " [diff](https://github.com/"@ + repo + "/compare/"@
        + base_sha + ".."@ + changed_sha + ")\nBENCH_NAME="@ + bench_name
        + "\nBENCH_COMMAND=cargo bench --features=parquet --bench "@ + bench_name
        + "\nBENCH_FILTER="@ + bench_filter + "\nResults will be posted here when complete"@
        + footer
}

/// The comment posted when a criterion comparison starts.
pub fn criterion_running_comment(
    comment_url: &str,
    instance_type: &str,
    pod_resources: &str,
    uname: &str,
    lscpu: &str,
    changed_display: &str,
    changed_sha: &str,
    baseline_label: &str,
    repo: &str,
    base_sha: &str,
    bench_name: &str,
    bench_filter: &str,
    footer: &str,
) -> (r: String)
    ensures
        r@ == criterion_running_text(
            comment_url@,
            instance_type@,
            pod_resources@,
            uname@,
            lscpu@,
            changed_display@,
            changed_sha@,
            baseline_label@,
            repo@,
            base_sha@,
            bench_name@,
            bench_filter@,
            footer@,
        ),
{
    let mut s = String::new();
    push_str(&mut s, "\u{1f916} Criterion benchmark running (GKE) | [trigger](");
    push_str(&mut s, comment_url);
    push_str(&mut s, ")\n**Instance:** `");
    push_str(&mut s, instance_type);
    push_str(&mut s, "` (");
    push_str(&mut s, pod_resources);
    push_str(&mut s, ") | `");
    push_str(&mut s, uname);
    push_str(&mut s, "`\n");
    push_lscpu_block(&mut s, lscpu);
    push_str(&mut s, "Comparing ");
    push_str(&mut s, changed_display);
    push_str(&mut s, " (");
    push_str(&mut s, changed_sha);
    push_str(&mut s, ") to ");
    push_str(&mut s, baseline_label);
    push_str(&mut s, " [diff](https://github.com/");
    push_str(&mut s, repo);
    push_str(&mut s, "/compare/");
    push_str(&mut s, base_sha);
    push_str(&mut s, "..");
    push_str(&mut s, changed_sha);
    push_str(&mut s, ")\nBENCH_NAME=");
    push_str(&mut s, bench_name);
    push_str(&mut s, "\nBENCH_COMMAND=cargo bench --features=parquet --bench ");
    push_str(&mut s, bench_name);
    push_str(&mut s, "\nBENCH_FILTER=");
    push_str(&mut s, bench_filter);
    push_str(&mut s, "\nResults will be posted here when complete");
    push_str(&mut s, footer);
    proof {
        assert(s@ =~= criterion_running_text(
            comment_url@,
            instance_type@,
            pod_resources@,
            uname@,
            lscpu@,
            changed_display@,
            changed_sha@,
            baseline_label@,
            repo@,
            base_sha@,
            bench_name@,
            bench_filter@,
            footer@,
        ));
    }
    s
}

/// The datasets a criterion benchmark needs generated first.
pub open spec fn datasets_of(name: Seq<char>) -> Seq<Seq<char>> {
    if name == "sql_planner"@ {
        seq!["clickbench_partitioned"@]
    } else {
        seq![]
    }
}

/// Return the dataset names required by a given criterion benchmark.
pub fn required_datasets(bench_name: &str) -> (r: Vec<&'static str>)
    ensures
        r@.map_values(|s: &str| s@) == datasets_of(bench_name@),
{
    let mut v: Vec<&'static str> = Vec::new();
    if crate::text::str_eq(bench_name, "sql_planner") {
        v.push("clickbench_partitioned");
    }
    proof {
        assert(v@.map_values(|s: &str| s@) =~= datasets_of(bench_name@));
    }
    v
}

/// Borrow each string of `v`.
pub fn str_slice(v: &[String]) -> (r: Vec<&str>)
    ensures
        r@.map_values(|s: &str| s@) == views(v@),
{
    let mut out: Vec<&str> = Vec::new();
    let mut k: usize = 0;
    while k < v.len()
        invariant
            0 <= k <= v@.len(),
            out@.map_values(|s: &str| s@) == views(v@).take(k as int),
        decreases v@.len() - k,
    {
        let ghost before = out@;
        let x = v[k].as_str();
        out.push(x);
        proof {
            assert(out@.map_values(|s: &str| s@) =~= before.map_values(|s: &str| s@).push(x@));
            assert(views(v@).take(k + 1) =~= views(v@).take(k as int).push(v@[k as int]@));
        }
        k = k + 1;
    }
    proof {
        assert(views(v@).take(v@.len() as int) =~= views(v@));
    }
    out
}

// ──────────────────────────── run steps ───────────────────────────────

/// Where a criterion run stands.
#[derive(Debug, Clone, Copy, PartialEq, Eq, Structural)]
pub enum CriterionRun {
    /// Both sides are compiling; the branch build is awaited first.
    BuildingBranch,
    /// The branch built; the merge-base build is awaited.
    BuildingBaseline,
    /// The benchmark runs on the merge-base.
    RunningBaseline,
    /// The benchmark runs on the branch, after a baseline run or without.
    RunningBranch { with_baseline: bool },
    Finished,
}

/// What the runner reports back to the step function.
#[derive(Debug, Clone, Copy, PartialEq, Eq, Structural)]
pub enum CriterionEvent {
    BranchBuilt { ok: bool },
    BaselineBuilt { ok: bool },
    RunFinished,
}

/// What the runner does next.
#[derive(Debug, Clone, Copy, PartialEq, Eq, Structural)]
pub enum CriterionAction {
    /// Stop with the branch build's error.
    Abort,
    AwaitBaselineBuild,
    RunBaseline,
    RunBranch,
    /// Compare both sides with `critcmp` and post the full report.
    CompareAndReport,
    /// Post the branch-only report (the benchmark may be new).
    ReportBranchOnly,
}

/// The run's next state and action. A branch that does not build ends the
/// run; a merge-base that does not build only skips the baseline run, and
/// the report then covers the branch alone.
pub open spec fn criterion_next(state: CriterionRun, event: CriterionEvent) -> (CriterionRun, CriterionAction) {
    match (state, event) {
        (CriterionRun::BuildingBranch, CriterionEvent::BranchBuilt { ok }) => if ok {
            (CriterionRun::BuildingBaseline, CriterionAction::AwaitBaselineBuild)
        } else {
            (CriterionRun::Finished, CriterionAction::Abort)
        },
        (CriterionRun::BuildingBaseline, CriterionEvent::BaselineBuilt { ok }) => if ok {
            (CriterionRun::RunningBaseline, CriterionAction::RunBaseline)
        } else {
            (CriterionRun::RunningBranch { with_baseline: false }, CriterionAction::RunBranch)
        },
        (CriterionRun::RunningBaseline, CriterionEvent::RunFinished) => (
            CriterionRun::RunningBranch { with_baseline: true },
            CriterionAction::RunBranch,
        ),
        (CriterionRun::RunningBranch { with_baseline }, CriterionEvent::RunFinished) => (
            CriterionRun::Finished,
            if with_baseline {
                CriterionAction::CompareAndReport
            } else {
                CriterionAction::ReportBranchOnly
            },
        ),
        _ => (CriterionRun::Finished, CriterionAction::Abort),
    }
}

/// One step of a criterion run.
pub fn criterion_step(state: CriterionRun, event: CriterionEvent) -> (r: (CriterionRun, CriterionAction))
    ensures
        r == criterion_next(state, event),
{
    match (state, event) {
        (CriterionRun::BuildingBranch, CriterionEvent::BranchBuilt { ok }) => if ok {
            (CriterionRun::BuildingBaseline, CriterionAction::AwaitBaselineBuild)
        } else {
            (CriterionRun::Finished, CriterionAction::Abort)
        },
        (CriterionRun::BuildingBaseline, CriterionEvent::BaselineBuilt { ok }) => if ok {
            (CriterionRun::RunningBaseline, CriterionAction::RunBaseline)
        } else {
            (CriterionRun::RunningBranch { with_baseline: false }, CriterionAction::RunBranch)
        },
        (CriterionRun::RunningBaseline, CriterionEvent::RunFinished) => (
            CriterionRun::RunningBranch { with_baseline: true },
            CriterionAction::RunBranch,
        ),
        (CriterionRun::RunningBranch { with_baseline }, CriterionEvent::RunFinished) => (
            CriterionRun::Finished,
            if with_baseline {
                CriterionAction::CompareAndReport
            } else {
                CriterionAction::ReportBranchOnly
            },
        ),
        _ => (CriterionRun::Finished, CriterionAction::Abort),
    }
}

/// Over a run that goes as the runner drives it, the full comparison is
/// posted exactly when the merge-base built, and the benchmark runs on the
/// merge-base only then.
pub proof fn lemma_report_follows_baseline_build(baseline_ok: bool)
    ensures
        ({
            let (s1, a1) = criterion_next(CriterionRun::BuildingBranch, CriterionEvent::BranchBuilt { ok: true });
            let (s2, a2) = criterion_next(s1, CriterionEvent::BaselineBuilt { ok: baseline_ok });
            let (s3, a3) = criterion_next(s2, CriterionEvent::RunFinished);
            let (s4, a4) = criterion_next(s3, CriterionEvent::RunFinished);
            &&& a1 == CriterionAction::AwaitBaselineBuild
            &&& (a2 == CriterionAction::RunBaseline) == baseline_ok
            &&& (if baseline_ok {
                a3 == CriterionAction::RunBranch && a4 == CriterionAction::CompareAndReport
                    && s4 == CriterionRun::Finished
            } else {
                a2 == CriterionAction::RunBranch && a3 == CriterionAction::ReportBranchOnly
                    && s3 == CriterionRun::Finished
            })
        }),
        criterion_next(CriterionRun::BuildingBranch, CriterionEvent::BranchBuilt { ok: false })
            == (CriterionRun::Finished, CriterionAction::Abort),
{
}

} // verus!
