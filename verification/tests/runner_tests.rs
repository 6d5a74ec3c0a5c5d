use benchmark_controller::models::{EnvVars, JobType};
use benchmark_controller::runner::bench_criterion::{
    baseline_label, bench_build_args, bench_command_args, bench_run_args,
    format_branch_only_result_comment, format_result_comment as criterion_result_comment,
    criterion_step, required_datasets, str_slice, with_env, CriterionAction, CriterionEvent,
    CriterionRun,
};
use benchmark_controller::runner::bench_standard::{
    bench_sh_args, format_resource_section, format_result_comment as standard_result_comment,
    scale_factor_arg, tpch_direct_args, tpch_env_args,
};
use benchmark_controller::runner::config::{env_or, env_required, BenchType, PosterMode, RunnerConfig};
use benchmark_controller::runner::git::{clone_args, pr_fetch_refspec, sanitize_branch_name};
use benchmark_controller::runner::shell::{command_failure_message, tail_lines, OUTPUT_FILE};

fn vars(pairs: &[(&str, &str)]) -> EnvVars {
    let mut e = EnvVars::new();
    for (k, v) in pairs {
        e.insert(k.to_string(), v.to_string());
    }
    e
}

// ── bench_criterion ─────────────────────────────────────────────────

#[test]
fn required_datasets_sql_planner() {
    assert_eq!(required_datasets("sql_planner"), &["clickbench_partitioned"]);
}

#[test]
fn required_datasets_unknown_returns_empty() {
    assert!(required_datasets("unknown_bench").is_empty());
}

#[test]
fn bench_args_construction() {
    let args = bench_command_args("sql_planner");
    assert_eq!(args, vec!["bench", "--features=parquet", "--bench", "sql_planner"]);
}

#[test]
fn bench_criterion_result_comment_format() {
    let comment = criterion_result_comment(
        "https://example.com/comment",
        "test report\n",
        "resources\n",
        "c4a-standard-48",
        "12 vCPU / 65 GiB",
        "lscpu output",
        "",
    );
    assert!(comment.contains("Criterion benchmark completed"));
    assert!(comment.contains("[trigger](https://example.com/comment)"));
    assert!(comment.contains("test report"));
    assert!(comment.contains("<details>"));
    assert!(comment.contains("Resource Usage"));
    assert!(comment.contains("c4a-standard-48"));
    assert!(comment.contains("12 vCPU / 65 GiB"));
    assert!(comment.contains("lscpu output"));
}

#[test]
fn branch_only_result_comment_format() {
    let comment = format_branch_only_result_comment(
        "https://example.com/comment",
        "branch report\n",
        "branch resources\n",
        "c4a-standard-48",
        "12 vCPU / 65 GiB",
        "lscpu output",
        "",
    );
    assert!(comment.contains("Criterion benchmark completed"));
    assert!(comment.contains("New benchmark — branch-only results"));
    assert!(comment.contains("[trigger](https://example.com/comment)"));
    assert!(comment.contains("branch report"));
    assert!(comment.contains("Resource Usage"));
    assert!(comment.contains("branch resources"));
    assert!(comment.contains("c4a-standard-48"));
    assert!(comment.contains("12 vCPU / 65 GiB"));
    assert!(comment.contains("lscpu output"));
}

// ── bench_standard ──────────────────────────────────────────────────

#[test]
fn bench_standard_result_comment_format() {
    let comment = standard_result_comment(
        "https://example.com/comment",
        "test report\n",
        "resources\n",
        "c4a-standard-48",
        "12 vCPU / 65 GiB",
        "lscpu output",
        "",
    );
    assert!(comment.contains("Benchmark completed"));
    assert!(comment.contains("[trigger](https://example.com/comment)"));
    assert!(comment.contains("test report"));
    assert!(comment.contains("<details>"));
    assert!(comment.contains("Resource Usage"));
    assert!(comment.contains("resources"));
    assert!(comment.contains("c4a-standard-48"));
    assert!(comment.contains("12 vCPU / 65 GiB"));
    assert!(comment.contains("lscpu output"));
}

#[test]
fn tpch_direct_args_maps_variants() {
    let (args, results) = tpch_direct_args("tpch").unwrap();
    assert!(args.contains(&"--scale-factor".to_string()));
    assert!(args.contains(&"1".to_string()));
    assert!(!args.contains(&"-m".to_string()));
    assert_eq!(results, "tpch_sf1.json");

    let (args, results) = tpch_direct_args("tpch10").unwrap();
    assert!(args.contains(&"10".to_string()));
    assert!(!args.contains(&"-m".to_string()));
    assert_eq!(results, "tpch_sf10.json");

    let (args, results) = tpch_direct_args("tpch_mem").unwrap();
    assert!(args.contains(&"-m".to_string()));
    assert_eq!(results, "tpch_mem_sf1.json");

    let (args, results) = tpch_direct_args("tpch_mem10").unwrap();
    assert!(args.contains(&"-m".to_string()));
    assert!(args.contains(&"10".to_string()));
    assert_eq!(results, "tpch_mem_sf10.json");

    assert!(tpch_direct_args("clickbench_1").is_none());
    assert!(tpch_direct_args("topk_tpch").is_none());
}

// ── config ──────────────────────────────────────────────────────────

#[test]
fn bench_type_standard() {
    assert_eq!(BenchType::from_str("standard").unwrap(), BenchType::Standard);
}

#[test]
fn bench_type_criterion() {
    assert_eq!(BenchType::from_str("criterion").unwrap(), BenchType::Criterion);
}

#[test]
fn bench_type_arrow_criterion() {
    assert_eq!(BenchType::from_str("arrow_criterion").unwrap(), BenchType::ArrowCriterion);
}

#[test]
fn bench_type_main_tracking() {
    assert_eq!(BenchType::from_str("main_tracking").unwrap(), BenchType::MainTracking);
}

#[test]
fn bench_type_unknown() {
    assert!(BenchType::from_str("bogus").is_err());
}

#[test]
fn comment_url_construction() {
    let env = vars(&[
        ("PR_URL", "https://github.com/apache/datafusion/pull/12345"),
        ("COMMENT_ID", "999"),
        ("BENCH_TYPE", "standard"),
        ("REPO", "apache/datafusion"),
        ("GITHUB_TOKEN", "t"),
    ]);
    let url = RunnerConfig::from_vars(&env).unwrap().comment_url;
    assert_eq!(url, "https://github.com/apache/datafusion/pull/12345#issuecomment-999");
}

#[test]
fn pr_number_parsing() {
    let env = vars(&[
        ("PR_URL", "https://github.com/apache/datafusion/pull/12345"),
        ("COMMENT_ID", "999"),
        ("BENCH_TYPE", "standard"),
        ("REPO", "apache/datafusion"),
        ("GITHUB_TOKEN", "t"),
    ]);
    let num: i64 = RunnerConfig::from_vars(&env).unwrap().pr_number().unwrap();
    assert_eq!(num, 12345);
}

#[test]
fn env_or_uses_default() {
    assert_eq!(env_or(&EnvVars::new(), "__RUNNER_TEST_UNSET__", "fallback"), "fallback");
}

#[test]
fn env_required_errors_when_missing() {
    assert!(env_required(&EnvVars::new(), "__RUNNER_TEST_MISSING__").is_err());
}

// ── git ─────────────────────────────────────────────────────────────

#[test]
fn sanitize_simple() {
    assert_eq!(sanitize_branch_name("my-branch"), "my-branch");
}

#[test]
fn sanitize_with_slashes() {
    assert_eq!(sanitize_branch_name("feature/my-branch"), "feature_my-branch");
}

#[test]
fn sanitize_multiple_slashes() {
    assert_eq!(sanitize_branch_name("user/feature/sub"), "user_feature_sub");
}

// ── shell ───────────────────────────────────────────────────────────

#[test]
fn output_file_path() {
    assert_eq!(OUTPUT_FILE, "/tmp/benchmark_output.txt");
}

// ── further cases ───────────────────────────────────────────────────

#[test]
fn runner_config_errors_in_order() {
    let err = RunnerConfig::from_vars(&EnvVars::new()).unwrap_err();
    assert_eq!(err, "missing required env var PR_URL");
    let err = RunnerConfig::from_vars(&vars(&[("PR_URL", "u"), ("COMMENT_ID", "1"), ("BENCH_TYPE", "x")])).unwrap_err();
    assert_eq!(err, "unknown BENCH_TYPE: x");
    let err = RunnerConfig::from_vars(&vars(&[
        ("PR_URL", "u"),
        ("COMMENT_ID", "1"),
        ("BENCH_TYPE", "criterion"),
        ("REPO", "o/r"),
    ]))
    .unwrap_err();
    assert!(err.starts_with("missing credentials: set RUNNER_TOKEN+CONTROLLER_URL+JOB_ID"));
}

#[test]
fn runner_config_values_and_proxy_mode() {
    let c = RunnerConfig::from_vars(&vars(&[
        ("PR_URL", "https://github.com/o/r/pull/3/"),
        ("COMMENT_ID", "1"),
        ("BENCH_TYPE", "criterion"),
        ("REPO", "o/r"),
        ("RUNNER_TOKEN", "tok"),
        ("CONTROLLER_URL", "http://c"),
        ("JOB_ID", "9"),
        ("GITHUB_TOKEN", "gh"),
        ("BASELINE_ENV_VARS", "{\"Z\":\"1\",\"A\":\"2\"}"),
        ("CHANGED_ENV_VARS", "not json"),
    ]))
    .unwrap();
    assert_eq!(c.bench_name, "sql_planner");
    assert_eq!(c.benchmarks, "");
    assert_eq!(c.repo_url(), "https://github.com/o/r.git");
    assert_eq!(c.pr_number().unwrap(), 3);
    assert!(matches!(c.poster_mode, PosterMode::Proxy { ref job_id, .. } if job_id == "9"));
    assert_eq!(c.baseline_env_args(), vec!["A=2", "Z=1"]);
    assert!(c.changed_env_args().is_empty());
    assert_eq!(JobType::ArrowCriterion.as_str(), "arrow_criterion");
    assert_eq!(BenchType::from_str(JobType::ArrowCriterion.as_str()).unwrap(), BenchType::ArrowCriterion);
}

#[test]
fn runner_pr_number_error() {
    let c = RunnerConfig::from_vars(&vars(&[
        ("PR_URL", "https://github.com/o/r/pull/x"),
        ("COMMENT_ID", "1"),
        ("BENCH_TYPE", "standard"),
        ("REPO", "o/r"),
        ("GITHUB_TOKEN", "gh"),
    ]))
    .unwrap();
    assert_eq!(c.pr_number().unwrap_err(), "failed to parse PR number from PR_URL");
    assert!(matches!(c.poster_mode, PosterMode::Direct { .. }));
}

#[test]
fn criterion_commands() {
    assert_eq!(
        bench_run_args("b", "main", ""),
        vec!["bench", "--features=parquet", "--bench", "b", "--", "--save-baseline", "main"]
    );
    assert_eq!(bench_run_args("b", "x", "f").last().unwrap(), "f");
    assert_eq!(bench_build_args("b").last().unwrap(), "--no-run");
    let (p, a) = with_env(&vec![], "cargo", vec!["x".into()]);
    assert_eq!((p.as_str(), a), ("cargo", vec!["x".to_string()]));
    let (p, a) = with_env(&vec!["K=V".into()], "cargo", vec!["x".into()]);
    assert_eq!((p.as_str(), a), ("env", vec!["K=V".to_string(), "cargo".into(), "x".into()]));
    assert_eq!(str_slice(&["a".to_string(), "b".to_string()]), vec!["a", "b"]);
}

#[test]
fn baseline_labels() {
    assert_eq!(baseline_label(Some("v1"), "abcdef0123"), "v1");
    assert_eq!(baseline_label(None, "abcdef0123"), "abcdef0 (merge-base)");
    assert_eq!(baseline_label(None, "abc"), "abc (merge-base)");
}

#[test]
fn standard_commands() {
    assert_eq!(
        bench_sh_args("tpcds", "/w/base", "HEAD", "/w/spill", &["K=V".to_string()]),
        vec![
            "DATAFUSION_DIR=/w/base",
            "RESULTS_NAME=HEAD",
            "DATAFUSION_RUNTIME_TEMP_DIRECTORY=/w/spill",
            "K=V",
            "./bench.sh",
            "run",
            "tpcds"
        ]
    );
    let (args, file) = tpch_direct_args("tpch_mem10").unwrap();
    assert_eq!(scale_factor_arg(&args).as_deref(), Some("10"));
    assert_eq!(scale_factor_arg(&vec!["--scale-factor".to_string()]), None);
    let env = tpch_env_args("/s", &[], "/bin/dfbench", &args, "/d", &file);
    assert_eq!(env[0], "DATAFUSION_RUNTIME_TEMP_DIRECTORY=/s");
    assert_eq!(env[1], "/bin/dfbench");
    assert_eq!(env[env.len() - 1], "tpch_mem_sf10.json");
    assert_eq!(env[env.len() - 4], "--path");
}

#[test]
fn resource_section_layout() {
    let s = format_resource_section(
        &[("tpch".to_string(), "T1".to_string())],
        &[("tpch".to_string(), "T2".to_string())],
    );
    assert_eq!(s, "**tpch \u{2014} base (merge-base)**\nT1\n\n**tpch \u{2014} branch**\nT2\n\n");
}

#[test]
fn git_helpers() {
    assert_eq!(clone_args("u", "/d", 200), vec!["clone", "--depth=200", "u", "/d"]);
    assert_eq!(
        pr_fetch_refspec("https://github.com/o/r/pull/77/", "feat/x"),
        "refs/pull/77/head:feat/x"
    );
}

#[test]
fn shell_messages() {
    assert_eq!(tail_lines("a\nb\nc\n", 2), "b\nc");
    assert_eq!(tail_lines("a\nb", 5), "a\nb");
    assert_eq!(tail_lines("", 3), "");
    assert_eq!(
        command_failure_message("git", &vec!["fetch".into(), "origin".into()], 128, "o", "e"),
        "git fetch origin exited with code 128\nstdout:\no\nstderr:\ne"
    );
}

#[test]
fn criterion_steps_with_and_without_baseline() {
    assert_eq!(criterion_step(CriterionRun::BuildingBranch, CriterionEvent::BranchBuilt { ok: false }), (CriterionRun::Finished, CriterionAction::Abort));
    let (s, a) = criterion_step(CriterionRun::BuildingBranch, CriterionEvent::BranchBuilt { ok: true });
    assert_eq!((s, a), (CriterionRun::BuildingBaseline, CriterionAction::AwaitBaselineBuild));
    let (s2, a2) = criterion_step(s, CriterionEvent::BaselineBuilt { ok: true });
    assert_eq!((s2, a2), (CriterionRun::RunningBaseline, CriterionAction::RunBaseline));
    let (s3, a3) = criterion_step(s2, CriterionEvent::RunFinished);
    assert_eq!((s3, a3), (CriterionRun::RunningBranch { with_baseline: true }, CriterionAction::RunBranch));
    assert_eq!(criterion_step(s3, CriterionEvent::RunFinished), (CriterionRun::Finished, CriterionAction::CompareAndReport));
    let (t, b) = criterion_step(s, CriterionEvent::BaselineBuilt { ok: false });
    assert_eq!((t, b), (CriterionRun::RunningBranch { with_baseline: false }, CriterionAction::RunBranch));
    assert_eq!(criterion_step(t, CriterionEvent::RunFinished), (CriterionRun::Finished, CriterionAction::ReportBranchOnly));
    assert_eq!(criterion_step(CriterionRun::Finished, CriterionEvent::RunFinished), (CriterionRun::Finished, CriterionAction::Abort));
}
