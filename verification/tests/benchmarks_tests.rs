use benchmark_controller::benchmarks::{
    allowed_users_markdown, detect_benchmark, is_benchmark_trigger, is_queue_request,
    is_singular_no_names, parse_trigger, supported_benchmarks_message, DetectResult, TriggerKind,
};
use benchmark_controller::config::RepoEntry;
use benchmark_controller::benchmarks::config_block;
use benchmark_controller::models::{BenchmarkRequest, JobType};
use benchmark_controller::yaml::{CommentConfig, SideConfig};

/// No configuration block.
fn none() -> Result<CommentConfig, String> {
    Ok(CommentConfig::empty())
}

fn vars(pairs: &[(&str, &str)]) -> Option<Vec<(String, String)>> {
    Some(pairs.iter().map(|(k, v)| (k.to_string(), v.to_string())).collect())
}

fn side(git_ref: Option<&str>, env: Option<Vec<(String, String)>>) -> Option<SideConfig> {
    Some(SideConfig { git_ref: git_ref.map(|r| r.to_string()), env })
}

/// What serde reads the block into (written out by hand).
fn conf(
    env: Option<Vec<(String, String)>>,
    baseline: Option<SideConfig>,
    changed: Option<SideConfig>,
) -> Result<CommentConfig, String> {
    Ok(CommentConfig { env, baseline, changed })
}

fn df_entry() -> RepoEntry {
    RepoEntry {
        standard: vec![
            "tpch".into(),
            "tpch10".into(),
            "tpch_mem".into(),
            "tpch_mem10".into(),
            "clickbench_partitioned".into(),
            "clickbench_extended".into(),
            "clickbench_1".into(),
            "clickbench_pushdown".into(),
            "external_aggr".into(),
            "tpcds".into(),
        ],
        criterion: vec!["sql_planner".into(), "in_list".into(), "case_when".into()],
        criterion_type: "datafusion".into(),
        default_standard: vec![
            "clickbench_partitioned".into(),
            "tpcds".into(),
            "tpch".into(),
        ],
    }
}

fn arrow_entry() -> RepoEntry {
    RepoEntry {
        standard: vec![],
        criterion: vec!["arrow_reader".into(), "arrow_writer".into()],
        criterion_type: "arrow".into(),
        default_standard: vec![],
    }
}

fn unwrap_parsed(result: DetectResult) -> BenchmarkRequest {
    match result {
        DetectResult::Parsed(req) => req,
        DetectResult::ConfigError(e) => panic!("expected Parsed, got ConfigError: {e}"),
        DetectResult::NoTrigger => panic!("expected Parsed, got None"),
    }
}

fn is_none(result: &DetectResult) -> bool {
    matches!(result, DetectResult::NoTrigger)
}

fn is_parsed(result: &DetectResult) -> bool {
    matches!(result, DetectResult::Parsed(_))
}

#[test]
fn detect_default_suite() {
    let req = unwrap_parsed(detect_benchmark(&df_entry(), "run benchmarks", &none()));
    assert!(req.benchmarks.is_empty());
    assert!(req.env_vars.is_empty());
}

#[test]
fn detect_default_suite_with_env_vars() {
    let body = "run benchmarks\nenv:\n  DATAFUSION_RUNTIME_MEMORY_LIMIT: 1G";
    assert_eq!(config_block(body).as_deref(), Some("env:\n  DATAFUSION_RUNTIME_MEMORY_LIMIT: 1G"));
    let parsed = conf(vars(&[("DATAFUSION_RUNTIME_MEMORY_LIMIT", "1G")]), None, None);
    let req = unwrap_parsed(detect_benchmark(&df_entry(), body, &parsed));
    assert!(req.benchmarks.is_empty());
    assert_eq!(req.env_vars.get("DATAFUSION_RUNTIME_MEMORY_LIMIT").unwrap(), "1G");
}

#[test]
fn detect_single_named() {
    let req = unwrap_parsed(detect_benchmark(&df_entry(), "run benchmark tpch_mem", &none()));
    assert_eq!(req.benchmarks, vec!["tpch_mem"]);
}

#[test]
fn detect_multiple_named() {
    let req = unwrap_parsed(detect_benchmark(&df_entry(), "run benchmark tpch_mem tpch10", &none()));
    assert_eq!(req.benchmarks, vec!["tpch_mem", "tpch10"]);
}

#[test]
fn detect_criterion_benchmark() {
    let req = unwrap_parsed(detect_benchmark(&df_entry(), "run benchmark sql_planner", &none()));
    assert_eq!(req.benchmarks, vec!["sql_planner"]);
}

#[test]
fn detect_bogus_name_returns_none() {
    assert!(is_none(&detect_benchmark(&df_entry(), "run benchmark bogus_name", &none())));
}

#[test]
fn detect_one_invalid_rejects_all() {
    assert!(is_none(&detect_benchmark(&df_entry(), "run benchmark tpch_mem bogus", &none())));
}

#[test]
fn detect_not_a_trigger() {
    assert!(is_none(&detect_benchmark(&df_entry(), "hello world", &none())));
}

#[test]
fn detect_empty_string() {
    assert!(is_none(&detect_benchmark(&df_entry(), "", &none())));
}

#[test]
fn detect_case_insensitive() {
    assert!(is_parsed(&detect_benchmark(&df_entry(), "Run Benchmarks", &none())));
    assert!(is_parsed(&detect_benchmark(&df_entry(), "RUN BENCHMARK tpch", &none())));
}

#[test]
fn detect_arrow_criterion() {
    let req = unwrap_parsed(detect_benchmark(&arrow_entry(), "run benchmark arrow_reader", &none()));
    assert_eq!(req.benchmarks, vec!["arrow_reader"]);
}

#[test]
fn detect_plural_with_names() {
    let req = unwrap_parsed(detect_benchmark(&df_entry(), "run benchmarks tpch clickbench_1", &none()));
    assert_eq!(req.benchmarks, vec!["tpch", "clickbench_1"]);
}

#[test]
fn detect_singular_no_names_returns_none() {
    assert!(is_none(&detect_benchmark(&df_entry(), "run benchmark", &none())));
}

#[test]
fn is_singular_no_names_detects() {
    assert!(is_singular_no_names("run benchmark"));
    assert!(is_singular_no_names("  run benchmark  "));
    assert!(!is_singular_no_names("run benchmarks"));
    assert!(!is_singular_no_names("run benchmark tpch"));
}

#[test]
fn parse_baseline_changed_env_vars() {
    let body = "run benchmark tpch\nbaseline:\n  env:\n    DATAFUSION_RUNTIME_MEMORY_LIMIT: 1G\nchanged:\n  env:\n    DATAFUSION_RUNTIME_MEMORY_LIMIT: 2G";
    assert_eq!(config_block(body).as_deref(), Some("baseline:\n  env:\n    DATAFUSION_RUNTIME_MEMORY_LIMIT: 1G\nchanged:\n  env:\n    DATAFUSION_RUNTIME_MEMORY_LIMIT: 2G"));
    let parsed = conf(None, side(None, vars(&[("DATAFUSION_RUNTIME_MEMORY_LIMIT", "1G")])), side(None, vars(&[("DATAFUSION_RUNTIME_MEMORY_LIMIT", "2G")])));
    let req = unwrap_parsed(detect_benchmark(&df_entry(), body, &parsed));
    assert_eq!(req.baseline_env_vars.get("DATAFUSION_RUNTIME_MEMORY_LIMIT").unwrap(), "1G");
    assert_eq!(req.changed_env_vars.get("DATAFUSION_RUNTIME_MEMORY_LIMIT").unwrap(), "2G");
    assert!(req.env_vars.is_empty());
}

#[test]
fn parse_baseline_ref() {
    let body = "run benchmarks tpch clickbench_1\nbaseline:\n  ref: abc1234def";
    assert_eq!(config_block(body).as_deref(), Some("baseline:\n  ref: abc1234def"));
    let parsed = conf(None, side(Some("abc1234def"), None), None);
    let req = unwrap_parsed(detect_benchmark(&df_entry(), body, &parsed));
    assert_eq!(req.baseline_ref.as_deref(), Some("abc1234def"));
    assert!(req.changed_ref.is_none());
}

#[test]
fn parse_both_refs_with_env() {
    let body = "run benchmark tpch\nbaseline:\n  ref: v45.0.0\n  env:\n    FOO: old_value\nchanged:\n  ref: v46.0.0\n  env:\n    FOO: new_value";
    assert_eq!(config_block(body).as_deref(), Some("baseline:\n  ref: v45.0.0\n  env:\n    FOO: old_value\nchanged:\n  ref: v46.0.0\n  env:\n    FOO: new_value"));
    let parsed = conf(None, side(Some("v45.0.0"), vars(&[("FOO", "old_value")])), side(Some("v46.0.0"), vars(&[("FOO", "new_value")])));
    let req = unwrap_parsed(detect_benchmark(&df_entry(), body, &parsed));
    assert_eq!(req.baseline_ref.as_deref(), Some("v45.0.0"));
    assert_eq!(req.changed_ref.as_deref(), Some("v46.0.0"));
    assert_eq!(req.baseline_env_vars.get("FOO").unwrap(), "old_value");
    assert_eq!(req.changed_env_vars.get("FOO").unwrap(), "new_value");
}

#[test]
fn parse_shared_plus_per_side() {
    let body = "run benchmark tpch\nenv:\n  SHARED_SETTING: enabled\nbaseline:\n  env:\n    DATAFUSION_RUNTIME_MEMORY_LIMIT: 1G\nchanged:\n  env:\n    DATAFUSION_RUNTIME_MEMORY_LIMIT: 2G";
    assert_eq!(config_block(body).as_deref(), Some("env:\n  SHARED_SETTING: enabled\nbaseline:\n  env:\n    DATAFUSION_RUNTIME_MEMORY_LIMIT: 1G\nchanged:\n  env:\n    DATAFUSION_RUNTIME_MEMORY_LIMIT: 2G"));
    let parsed = conf(vars(&[("SHARED_SETTING", "enabled")]), side(None, vars(&[("DATAFUSION_RUNTIME_MEMORY_LIMIT", "1G")])), side(None, vars(&[("DATAFUSION_RUNTIME_MEMORY_LIMIT", "2G")])));
    let req = unwrap_parsed(detect_benchmark(&df_entry(), body, &parsed));
    assert_eq!(req.env_vars.get("SHARED_SETTING").unwrap(), "enabled");
    assert_eq!(req.baseline_env_vars.get("DATAFUSION_RUNTIME_MEMORY_LIMIT").unwrap(), "1G");
    assert_eq!(req.changed_env_vars.get("DATAFUSION_RUNTIME_MEMORY_LIMIT").unwrap(), "2G");
}

#[test]
fn parse_explicit_env_section() {
    let body = "run benchmark tpch\nenv:\n  DATAFUSION_RUNTIME_MEMORY_LIMIT: 1G";
    assert_eq!(config_block(body).as_deref(), Some("env:\n  DATAFUSION_RUNTIME_MEMORY_LIMIT: 1G"));
    let parsed = conf(vars(&[("DATAFUSION_RUNTIME_MEMORY_LIMIT", "1G")]), None, None);
    let req = unwrap_parsed(detect_benchmark(&df_entry(), body, &parsed));
    assert_eq!(req.env_vars.get("DATAFUSION_RUNTIME_MEMORY_LIMIT").unwrap(), "1G");
}

#[test]
fn parse_yaml_fenced_block() {
    let body = "run benchmark tpch\n```yaml\nbaseline:\n  ref: v45.0.0\n  env:\n    FOO: bar\nchanged:\n  ref: v46.0.0\n```";
    assert_eq!(config_block(body).as_deref(), Some("baseline:\n  ref: v45.0.0\n  env:\n    FOO: bar\nchanged:\n  ref: v46.0.0"));
    let parsed = conf(None, side(Some("v45.0.0"), vars(&[("FOO", "bar")])), side(Some("v46.0.0"), None));
    let req = unwrap_parsed(detect_benchmark(&df_entry(), body, &parsed));
    assert_eq!(req.baseline_ref.as_deref(), Some("v45.0.0"));
    assert_eq!(req.changed_ref.as_deref(), Some("v46.0.0"));
    assert_eq!(req.baseline_env_vars.get("FOO").unwrap(), "bar");
}

#[test]
fn parse_unknown_field_returns_config_error() {
    let body = "run benchmark tpch\ncurrent:\n  ref: HEAD";
    assert_eq!(config_block(body).as_deref(), Some("current:\n  ref: HEAD"));
    let parsed = Err("unknown field `current`, expected one of `env`, `baseline`, `changed` at line 1 column 1".to_string());
    match detect_benchmark(&df_entry(), body, &parsed) {
        DetectResult::ConfigError(e) => {
            assert!(e.contains("unknown field"), "error was: {e}");
        }
        other => panic!(
            "expected ConfigError, got {}",
            match other {
                DetectResult::Parsed(_) => "Parsed",
                DetectResult::NoTrigger => "None",
                DetectResult::ConfigError(_) => unreachable!(),
            }
        ),
    }
}

#[test]
fn trigger_named() {
    assert!(is_benchmark_trigger("run benchmark tpch"));
}

#[test]
fn trigger_default() {
    assert!(is_benchmark_trigger("run benchmarks"));
}

#[test]
fn trigger_case_insensitive() {
    assert!(is_benchmark_trigger("Run Benchmark FOO"));
}

#[test]
fn trigger_not_matching() {
    assert!(!is_benchmark_trigger("hello"));
}

#[test]
fn trigger_leading_whitespace() {
    assert!(is_benchmark_trigger("  run benchmark x  "));
}

#[test]
fn queue_request_exact() {
    assert!(is_queue_request("show benchmark queue"));
}

#[test]
fn queue_request_case_insensitive() {
    assert!(is_queue_request("SHOW BENCHMARK QUEUE"));
}

#[test]
fn queue_request_extra_words() {
    assert!(!is_queue_request("show benchmark queue please"));
}

#[test]
fn queue_request_wrong_phrase() {
    assert!(!is_queue_request("run benchmarks"));
}

#[test]
fn classify_df_standard() {
    assert_eq!(df_entry().classify_benchmark("tpch"), Some(JobType::Standard));
}

#[test]
fn classify_df_criterion() {
    assert_eq!(df_entry().classify_benchmark("sql_planner"), Some(JobType::Criterion));
}

#[test]
fn classify_df_bogus() {
    assert_eq!(df_entry().classify_benchmark("bogus"), None);
}

#[test]
fn classify_arrow_criterion() {
    assert_eq!(arrow_entry().classify_benchmark("arrow_reader"), Some(JobType::ArrowCriterion));
}

#[test]
fn supported_msg_no_unsupported() {
    let msg = supported_benchmarks_message(&df_entry(), &[]);
    assert!(!msg.contains("Unsupported"));
}

#[test]
fn supported_msg_with_unsupported() {
    let msg = supported_benchmarks_message(&df_entry(), &["bogus".to_string()]);
    assert!(msg.contains("Unsupported benchmarks: bogus"));
}

#[test]
fn allowed_users_contains_known_user() {
    let users: Vec<String> = ["alamb", "zhuqi-lucas"].iter().map(|s| s.to_string()).collect();
    let md = allowed_users_markdown(&users);
    assert!(md.contains("[alamb](https://github.com/alamb)"));
    let pos_a = md.find("[alamb]").unwrap();
    let pos_z = md.find("[zhuqi-lucas]").unwrap();
    assert!(pos_a < pos_z);
}

// ── further cases ───────────────────────────────────────────────────

#[test]
fn allowed_users_sorted_whatever_the_input_order() {
    let users: Vec<String> = vec!["zed".into(), "amy".into(), "kim".into()];
    assert_eq!(
        allowed_users_markdown(&users),
        "[amy](https://github.com/amy), [kim](https://github.com/kim), [zed](https://github.com/zed)"
    );
}

#[test]
fn parse_trigger_kinds() {
    assert!(matches!(parse_trigger("run benchmarks"), Some(TriggerKind::DefaultSuite)));
    assert!(matches!(parse_trigger("run benchmark"), Some(TriggerKind::SingularNoNames)));
    match parse_trigger("run benchmark a b") {
        Some(TriggerKind::Named(n)) => assert_eq!(n, vec!["a", "b"]),
        _ => panic!("expected names"),
    }
    assert!(parse_trigger("please run benchmark").is_none());
}

#[test]
fn supported_msg_exact_text_for_arrow() {
    let msg = supported_benchmarks_message(&arrow_entry(), &["nope".to_string()]);
    assert!(msg.starts_with("Supported benchmarks:\n- Standard: (none)\n- Criterion: arrow_reader, arrow_writer"));
    assert!(msg.ends_with("\nUnsupported benchmarks: nope."));
}

#[test]
fn detect_config_error_on_non_mapping() {
    let body = "run benchmark tpch\nenv: [1, 2]";
    assert_eq!(config_block(body).as_deref(), Some("env: [1, 2]"));
    let parsed = Err("env: invalid type: sequence, expected a map at line 1 column 6".to_string());
    assert!(matches!(detect_benchmark(&df_entry(), body, &parsed), DetectResult::ConfigError(_)));
}

#[test]
fn detect_readme_key_value_env_line() {
    let body = "run benchmark tpch_mem\nDATAFUSION_RUNTIME_MEMORY_LIMIT=1G";
    let req = unwrap_parsed(detect_benchmark(&df_entry(), body, &none()));
    assert_eq!(req.benchmarks, vec!["tpch_mem"]);
    assert_eq!(req.env_vars.get("DATAFUSION_RUNTIME_MEMORY_LIMIT").unwrap(), "1G");
    assert_eq!(req.env_vars.len(), 1);
    assert!(req.baseline_env_vars.is_empty());
    assert!(req.changed_env_vars.is_empty());
}

#[test]
fn key_value_lines_mix_with_yaml_and_win() {
    let body = "run benchmarks\nA=1\nenv:\n  A: 0\n  B: 2\nbaseline:\n  ref: v1\nA=3 \nC=x=y";
    assert_eq!(config_block(body).as_deref(), Some("env:\n  A: 0\n  B: 2\nbaseline:\n  ref: v1"));
    let parsed = conf(vars(&[("A", "0"), ("B", "2")]), side(Some("v1"), None), None);
    let req = unwrap_parsed(detect_benchmark(&df_entry(), body, &parsed));
    assert_eq!(req.env_vars.get("A").unwrap(), "3");
    assert_eq!(req.env_vars.get("B").unwrap(), "2");
    assert_eq!(req.env_vars.get("C").unwrap(), "x=y");
    assert_eq!(req.baseline_ref.as_deref(), Some("v1"));
}

#[test]
fn key_value_line_needs_a_plain_name() {
    let body = "run benchmark tpch\nA B=1";
    assert_eq!(config_block(body).as_deref(), Some("A B=1"));
    let parsed = Err("invalid type: string \"A B=1\", expected struct CommentConfigYaml at line 1 column 1".to_string());
    assert!(matches!(detect_benchmark(&df_entry(), body, &parsed), DetectResult::ConfigError(_)));
}

#[test]
fn config_block_only_for_triggers_with_yaml() {
    assert_eq!(config_block("run benchmark tpch"), None);
    assert_eq!(config_block("run benchmark tpch_mem\nDATAFUSION_RUNTIME_MEMORY_LIMIT=1G"), None);
    assert_eq!(config_block("hello\nenv:\n  A: 1"), None);
    assert_eq!(config_block("run benchmark tpch\n```yaml\n\n```"), None);
    assert_eq!(config_block("run benchmark tpch\nA=1\n  \nref: x\n").as_deref(), Some("  \nref: x"));
}

#[test]
fn parse_result_is_ignored_without_a_block() {
    let bad: Result<CommentConfig, String> = Err("not read".to_string());
    assert!(is_parsed(&detect_benchmark(&df_entry(), "run benchmark tpch\nA=1", &bad)));
    let req = unwrap_parsed(detect_benchmark(
        &df_entry(),
        "run benchmarks\nenv:\n  A: 1\n  A: 2",
        &conf(vars(&[("A", "1"), ("A", "2")]), None, None),
    ));
    assert_eq!(req.env_vars.get("A").unwrap(), "2");
    assert_eq!(req.env_vars.len(), 1);
}
