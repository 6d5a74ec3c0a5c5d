use benchmark_controller::config::{BenchmarkConfig, RepoEntry};
use benchmark_controller::models::{BenchmarkJob, GitHubComment, GitHubUser};
use benchmark_controller::yaml::CommentConfig;

/// No configuration block.
fn none() -> Result<CommentConfig, String> {
    Ok(CommentConfig::empty())
}
use benchmark_controller::poller::{
    format_queue_message, not_allowed_message, plan_comment, pr_number_from_url, CommentPlan,
};

fn job(comment_id: i64) -> BenchmarkJob {
    BenchmarkJob {
        id: 1,
        comment_id,
        repo: "apache/datafusion".to_string(),
        pr_number: 42,
        pr_url: "https://github.com/apache/datafusion/pull/42".to_string(),
        login: "alice".to_string(),
        benchmarks: "[\"tpch\"]".to_string(),
        env_vars: "[]".to_string(),
        baseline_env_vars: "{}".to_string(),
        changed_env_vars: "{}".to_string(),
        baseline_ref: None,
        changed_ref: None,
        job_type: "standard".to_string(),
        cpu_request: None,
        memory_request: None,
        cpu_arch: None,
        k8s_job_name: None,
        status: "pending".to_string(),
        error_message: None,
        created_at: "2024-01-01T00:00:00Z".to_string(),
        updated_at: "2024-01-01T00:00:00Z".to_string(),
    }
}

#[test]
fn pr_number_standard_url() {
    let url = "https://api.github.com/repos/apache/datafusion/issues/42";
    assert_eq!(pr_number_from_url(url), Some(42));
}

#[test]
fn pr_number_trailing_slash() {
    let url = "https://api.github.com/repos/apache/datafusion/issues/42/";
    assert_eq!(pr_number_from_url(url), Some(42));
}

#[test]
fn pr_number_empty() {
    assert_eq!(pr_number_from_url(""), None);
}

#[test]
fn pr_number_not_a_number() {
    assert_eq!(pr_number_from_url("https://example.com/not-a-number"), None);
}

#[test]
fn pr_number_trailing_slash_only() {
    assert_eq!(pr_number_from_url("https://example.com/"), None);
}

#[test]
fn not_allowed_msg_contains_fields() {
    let users: Vec<String> = ["alamb"].iter().map(|s| s.to_string()).collect();
    let msg = not_allowed_message("testuser", "https://example.com/comment/1", &users);
    assert!(msg.contains("@testuser"));
    assert!(msg.contains("https://example.com/comment/1"));
    assert!(msg.contains("whitelisted") || msg.contains("Whitelisted"));
}

#[test]
fn format_queue_empty() {
    let msg = format_queue_message("alice", "https://example.com/c/1", &[]);
    assert!(msg.contains("No pending jobs."));
}

#[test]
fn format_queue_with_jobs() {
    let msg = format_queue_message("bob", "https://example.com/c/2", &[job(100)]);
    assert!(msg.contains("| Comment |"));
    assert!(msg.contains("[#100](https://github.com/apache/datafusion/pull/42#issuecomment-100)"));
    assert!(msg.contains("apache/datafusion"));
    assert!(msg.contains("#42"));
}

// ── further cases ───────────────────────────────────────────────────

#[test]
fn pr_number_round_trip_and_edge_values() {
    assert_eq!(pr_number_from_url("https://x/issues/9223372036854775807"), Some(i64::MAX));
    assert_eq!(pr_number_from_url("https://x/issues/9223372036854775808"), None);
    assert_eq!(pr_number_from_url("17"), Some(17));
    assert_eq!(pr_number_from_url("https://x/issues/+5//"), Some(5));
    assert_eq!(pr_number_from_url("https://x/issues/ 5"), None);
}

#[test]
fn not_allowed_message_exact() {
    let users: Vec<String> = vec!["b".into(), "a".into()];
    assert_eq!(
        not_allowed_message("u", "c", &users),
        "Hi @u, thanks for the request (c). Only whitelisted users can trigger benchmarks. Allowed users: [a](https://github.com/a), [b](https://github.com/b)."
    );
}

#[test]
fn queue_message_exact() {
    assert_eq!(
        format_queue_message("amy", "u", &[]),
        "Hi @amy, you asked to view the benchmark queue (u).\n\nNo pending jobs."
    );
    assert_eq!(
        format_queue_message("amy", "u", &[job(5)]),
        "Hi @amy, you asked to view the benchmark queue (u).\n\n| Comment | Repo | PR | User | Benchmarks | Status |\n| --- | --- | --- | --- | --- | --- |\n| [#5](https://github.com/apache/datafusion/pull/42#issuecomment-5) | apache/datafusion | #42 | alice | [\"tpch\"] | pending |"
    );
}

fn entry() -> RepoEntry {
    RepoEntry {
        standard: vec!["tpch".into()],
        criterion: vec!["sql_planner".into()],
        criterion_type: "datafusion".into(),
        default_standard: vec![],
    }
}

fn cfg() -> BenchmarkConfig {
    BenchmarkConfig { allowed_users: vec!["alice".into()], repos: vec![("o/r".into(), entry())] }
}

fn comment(login: &str, body: &str, issue: Option<&str>) -> GitHubComment {
    GitHubComment {
        id: 7,
        body: Some(body.to_string()),
        user: Some(GitHubUser { login: login.to_string() }),
        html_url: Some("https://c".to_string()),
        created_at: Some("t".to_string()),
        issue_url: issue.map(|s| s.to_string()),
    }
}

const ISSUE: Option<&str> = Some("https://api.github.com/repos/o/r/issues/12");

#[test]
fn plan_skips_comment_without_pr_number() {
    let c = comment("alice", "run benchmarks", None);
    assert!(matches!(plan_comment(&cfg(), "o/r", &entry(), &c, &none()), CommentPlan::Skip));
}

#[test]
fn plan_queue_request() {
    let c = comment("bob", "  Show Benchmark Queue ", ISSUE);
    assert!(matches!(plan_comment(&cfg(), "o/r", &entry(), &c, &none()), CommentPlan::ShowQueue { pr_number: 12 }));
}

#[test]
fn plan_schedules_one_job_per_name_for_allowed_user() {
    let c = comment("alice", "run benchmark tpch sql_planner\nenv:\n  A: 1", ISSUE);
    let parsed = Ok(CommentConfig {
        env: Some(vec![("A".to_string(), "1".to_string())]),
        baseline: None,
        changed: None,
    });
    match plan_comment(&cfg(), "o/r", &entry(), &c, &parsed) {
        CommentPlan::Schedule(s) => {
            assert_eq!(s.pr_number, 12);
            assert_eq!(s.pr_url, "https://github.com/o/r/pull/12");
            assert_eq!(s.env_vars, "{\"A\":\"1\"}");
            assert_eq!(s.baseline_env_vars, "{}");
            assert_eq!(s.jobs.len(), 2);
            assert_eq!(s.jobs[0].benchmarks, "[\"tpch\"]");
            assert_eq!(s.jobs[0].job_type, "standard");
            assert_eq!(s.jobs[1].benchmarks, "[\"sql_planner\"]");
            assert_eq!(s.jobs[1].job_type, "criterion");
            let rows = s.job_inserts(7, "o/r", "alice");
            assert_eq!(rows.len(), 2);
            assert_eq!(rows[1].job_type, "criterion");
            assert_eq!(rows[1].pr_url, "https://github.com/o/r/pull/12");
        }
        other => panic!("expected a schedule, got {other:?}"),
    }
}

#[test]
fn plan_default_suite_is_one_standard_job() {
    let c = comment("alice", "run benchmarks", ISSUE);
    match plan_comment(&cfg(), "o/r", &entry(), &c, &none()) {
        CommentPlan::Schedule(s) => {
            assert_eq!(s.jobs.len(), 1);
            assert_eq!(s.jobs[0].benchmarks, "[]");
            assert_eq!(s.jobs[0].job_type, "standard");
        }
        other => panic!("expected a schedule, got {other:?}"),
    }
}

#[test]
fn plan_refuses_unlisted_user() {
    let c = comment("mallory", "run benchmarks", ISSUE);
    match plan_comment(&cfg(), "o/r", &entry(), &c, &none()) {
        CommentPlan::Reply { pr_number, message } => {
            assert_eq!(pr_number, 12);
            assert!(message.starts_with("Hi @mallory, thanks for the request (https://c). Only whitelisted"));
        }
        other => panic!("expected a reply, got {other:?}"),
    }
}

#[test]
fn plan_helps_with_unknown_benchmark() {
    let c = comment("alice", "run benchmark nope", ISSUE);
    match plan_comment(&cfg(), "o/r", &entry(), &c, &none()) {
        CommentPlan::Reply { message, .. } => {
            assert!(message.starts_with("Hi @alice, thanks for the request (https://c).\n\nSupported benchmarks:"));
            assert!(message.ends_with("Unsupported benchmarks: nope."));
        }
        other => panic!("expected a reply, got {other:?}"),
    }
}

#[test]
fn plan_marks_ordinary_comment_seen() {
    let c = comment("alice", "Nice work, thanks!", ISSUE);
    assert!(matches!(plan_comment(&cfg(), "o/r", &entry(), &c, &none()), CommentPlan::MarkSeen { pr_number: 12 }));
}

#[test]
fn plan_reports_config_error_to_allowed_user() {
    let parsed: Result<CommentConfig, String> = Err(
        "unknown field `current`, expected one of `env`, `baseline`, `changed` at line 1 column 1".to_string(),
    );
    let c = comment("alice", "run benchmark tpch\ncurrent:\n  ref: HEAD", ISSUE);
    match plan_comment(&cfg(), "o/r", &entry(), &c, &parsed) {
        CommentPlan::Reply { pr_number, message } => {
            assert_eq!(pr_number, 12);
            assert!(message.starts_with("Hi @alice, thanks for the request (https://c).\n\ninvalid configuration: "));
            assert!(message.contains("unknown field `current`"), "message was: {message}");
        }
        _ => panic!("expected a reply"),
    }
    let c = comment("mallory", "run benchmark tpch\ncurrent:\n  ref: HEAD", ISSUE);
    match plan_comment(&cfg(), "o/r", &entry(), &c, &parsed) {
        CommentPlan::Reply { message, .. } => assert!(message.contains("Only whitelisted users")),
        _ => panic!("expected a reply"),
    }
}

#[test]
fn plan_schedules_readme_key_value_form() {
    let c = comment("alice", "run benchmark tpch\nDATAFUSION_RUNTIME_MEMORY_LIMIT=1G", ISSUE);
    match plan_comment(&cfg(), "o/r", &entry(), &c, &none()) {
        CommentPlan::Schedule(s) => {
            assert_eq!(s.env_vars, "{\"DATAFUSION_RUNTIME_MEMORY_LIMIT\":\"1G\"}");
            assert_eq!(s.jobs.len(), 1);
        }
        _ => panic!("expected a schedule"),
    }
}

#[test]
fn schedule_env_json_is_sorted_and_escaped() {
    let c = comment("alice", "run benchmarks\nB=2\nA=x\"y\\z\nB=3", ISSUE);
    match plan_comment(&cfg(), "o/r", &entry(), &c, &none()) {
        CommentPlan::Schedule(s) => {
            assert_eq!(s.env_vars, "{\"A\":\"x\\\"y\\\\z\",\"B\":\"3\"}");
            assert_eq!(s.baseline_env_vars, "{}");
        }
        _ => panic!("expected a schedule"),
    }
}
