use benchmark_controller::config::{BenchmarkConfig, Config};
use benchmark_controller::job_manager::{
    active_job_outcome, controller_url, deadline_exceeded_comment, pending_job_outcome,
    plan_k8s_job, runner_token_from, sanitize_label, shared_env, EnvSource, JobCondition,
    JobObservation, JobOutcome, StartOutcome,
};
use benchmark_controller::models::BenchmarkJob;

#[test]
fn sanitize_label_lowercases_and_replaces_bad_chars() {
    assert_eq!(sanitize_label("Alice"), "alice");
    assert_eq!(sanitize_label("user@github"), "user-github");
}

#[test]
fn sanitize_label_trims_to_63() {
    let long = "x".repeat(80);
    let out = sanitize_label(&long);
    assert!(out.len() <= 63);
    assert_eq!(&out, &long[..63]);
}

#[test]
fn sanitize_label_empty_falls_back() {
    assert_eq!(sanitize_label(""), "unknown");
    assert_eq!(sanitize_label("@@@"), "unknown");
}

// ── further cases ───────────────────────────────────────────────────

#[test]
fn sanitize_label_trims_ends_and_is_idempotent() {
    assert_eq!(sanitize_label("--Bob.Smith__"), "bob.smith");
    assert_eq!(sanitize_label("é-x"), "x");
    let once = sanitize_label("__A_b.C-d!!");
    assert_eq!(sanitize_label(&once), once);
    let cut = sanitize_label(&format!("{}-tail", "a".repeat(62)));
    assert_eq!(cut, "a".repeat(62));
}

#[test]
fn runner_token_is_hex_of_mixed_bytes() {
    let entropy = [0u8; 32];
    let tok = runner_token_from(&entropy, 0);
    assert_eq!(tok, "0".repeat(64));
    let tok = runner_token_from(&[0xab, 0x01], 0x0102);
    assert_eq!(tok, "a900");
    let full = runner_token_from(&[7u8; 32], u128::MAX);
    assert_eq!(full.len(), 64);
    assert!(full.chars().all(|c| c.is_ascii_hexdigit() && !c.is_ascii_uppercase()));
}

#[test]
fn controller_url_in_namespace() {
    assert_eq!(
        controller_url("benchmarking"),
        "http://benchmark-controller.benchmarking.svc.cluster.local:8080"
    );
}

fn config() -> Config {
    Config {
        github_token: "t".into(),
        database_url: "sqlite::memory:".into(),
        benchmark_config: BenchmarkConfig { allowed_users: vec![], repos: vec![] },
        poll_interval_secs: 5,
        reconcile_interval_secs: 10,
        k8s_namespace: "ns".into(),
        runner_image: "img".into(),
        default_cpu: "12".into(),
        default_memory: "65Gi".into(),
        ephemeral_storage: "128Gi".into(),
        default_machine_family: "c4a".into(),
        active_deadline_secs: 7200,
        ttl_after_finished_secs: 3600,
        storage_class: "hyperdisk-balanced".into(),
        sccache_gcs_bucket: Some("cache".into()),
        data_cache_bucket: None,
        runner_repo_url: Some("https://github.com/o/runner".into()),
    }
}

fn job() -> BenchmarkJob {
    BenchmarkJob {
        id: 5,
        comment_id: 100,
        repo: "apache/datafusion".into(),
        pr_number: 42,
        pr_url: "https://github.com/apache/datafusion/pull/42".into(),
        login: "Alice".into(),
        benchmarks: "[\"sql_planner\"]".into(),
        env_vars: "{\"B\":\"2\",\"A\":\"1\"}".into(),
        baseline_env_vars: "{}".into(),
        changed_env_vars: "{\"X\":\"y\"}".into(),
        baseline_ref: None,
        changed_ref: Some("v46".into()),
        job_type: "criterion".into(),
        cpu_request: None,
        memory_request: Some("30Gi".into()),
        cpu_arch: Some("amd64".into()),
        k8s_job_name: None,
        status: "pending".into(),
        error_message: None,
        created_at: "t".into(),
        updated_at: "t".into(),
    }
}

fn value_of(plan: &benchmark_controller::job_manager::JobPlan, name: &str) -> Option<String> {
    plan.env.iter().find(|e| e.name == name).and_then(|e| match &e.source {
        EnvSource::Value(v) => Some(v.clone()),
        _ => None,
    })
}

#[test]
fn plan_for_criterion_job() {
    let plan = plan_k8s_job(&config(), &job(), "secret", "feature/x").unwrap();
    assert_eq!(plan.name, "bench-c100-5");
    assert_eq!(plan.cpu, "12");
    assert_eq!(plan.memory, "30Gi");
    assert_eq!(plan.machine_family, "c4");
    assert_eq!(plan.arch, "amd64");
    assert_eq!(plan.triggered_by, "alice");
    assert_eq!(plan.comment_label, "100");
    assert_eq!(plan.env[0].name, "PR_URL");
    assert_eq!(value_of(&plan, "BENCHMARKS").as_deref(), Some("sql_planner"));
    assert_eq!(value_of(&plan, "BENCH_NAME").as_deref(), Some("sql_planner"));
    assert_eq!(value_of(&plan, "PR_HEAD_REF").as_deref(), Some("feature/x"));
    assert_eq!(value_of(&plan, "A").as_deref(), Some("1"));
    assert_eq!(value_of(&plan, "CHANGED_REF").as_deref(), Some("v46"));
    assert_eq!(value_of(&plan, "BASELINE_REF"), None);
    assert_eq!(value_of(&plan, "RUSTC_WRAPPER").as_deref(), Some("sccache"));
    assert_eq!(value_of(&plan, "RUNNER_REPO_URL").as_deref(), Some("https://github.com/o/runner"));
    assert_eq!(
        value_of(&plan, "CONTROLLER_URL").as_deref(),
        Some("http://benchmark-controller.ns.svc.cluster.local:8080")
    );
    assert_eq!(value_of(&plan, "RUNNER_JOB_DEADLINE_SECS").as_deref(), Some("7200"));
    let last = plan.env.last().unwrap();
    assert_eq!(last.name, "POD_MEM_LIMIT");
    assert!(matches!(&last.source, EnvSource::ResourceLimit(r) if r == "limits.memory"));
}

#[test]
fn plan_defaults_and_errors() {
    let mut j = job();
    j.cpu_arch = Some("arm64".into());
    j.job_type = "standard".into();
    j.env_vars = "[\"K=V=W\", \"BAD\", \"K2=\"]".into();
    let plan = plan_k8s_job(&config(), &j, "s", "").unwrap();
    assert_eq!(plan.machine_family, "c4a");
    assert_eq!(plan.arch, "arm64");
    assert_eq!(value_of(&plan, "BENCH_NAME"), None);
    assert_eq!(value_of(&plan, "PR_HEAD_REF"), None);
    assert_eq!(value_of(&plan, "K").as_deref(), Some("V=W"));
    assert_eq!(value_of(&plan, "K2").as_deref(), Some(""));
    j.benchmarks = "not json".into();
    assert!(plan_k8s_job(&config(), &j, "s", "").is_err());
    let mut j = job();
    j.env_vars = "{\"A\": 1}".into();
    assert!(plan_k8s_job(&config(), &j, "s", "").is_err());
}

#[test]
fn shared_env_forms() {
    assert_eq!(
        shared_env("  [\"A=1\", \"A=2\"]").unwrap(),
        vec![("A".to_string(), "2".to_string())]
    );
    assert_eq!(
        shared_env("{\"b\":\"2\",\"a\":\"1\"}").unwrap(),
        vec![("a".to_string(), "1".to_string()), ("b".to_string(), "2".to_string())]
    );
    assert!(shared_env("[1]").is_err());
}

fn cond(t: &str, s: &str, reason: Option<&str>, message: Option<&str>) -> JobCondition {
    JobCondition {
        type_: t.into(),
        status: s.into(),
        reason: reason.map(|x| x.into()),
        message: message.map(|x| x.into()),
    }
}

#[test]
fn active_outcomes() {
    let c = config();
    let j = job();
    let found = |succeeded, conditions| JobObservation::Found { succeeded, conditions };
    assert!(matches!(active_job_outcome(&c, &j, &found(Some(1), None)), JobOutcome::Completed));
    assert!(matches!(active_job_outcome(&c, &j, &found(Some(0), None)), JobOutcome::Unchanged));
    assert!(matches!(active_job_outcome(&c, &j, &JobObservation::Unavailable), JobOutcome::Unchanged));
    match active_job_outcome(&c, &j, &JobObservation::NotFound) {
        JobOutcome::Failed { error_message, notice } => {
            assert_eq!(error_message, "K8s Job not found");
            assert!(notice.is_none());
        }
        _ => panic!("expected failure"),
    }
    let conds = vec![
        cond("Failed", "False", Some("X"), None),
        cond("Failed", "True", None, None),
    ];
    match active_job_outcome(&c, &j, &found(None, Some(conds))) {
        JobOutcome::Failed { error_message, notice } => {
            assert_eq!(error_message, "K8s job failed");
            assert!(notice.is_none());
        }
        _ => panic!("expected failure"),
    }
    let conds = vec![cond("Failed", "True", Some("DeadlineExceeded"), Some("too slow"))];
    match active_job_outcome(&c, &j, &found(Some(0), Some(conds))) {
        JobOutcome::Failed { error_message, notice } => {
            assert_eq!(error_message, "K8s job failed: DeadlineExceeded");
            assert_eq!(notice.unwrap(), deadline_exceeded_comment(&c, &j, "too slow"));
        }
        _ => panic!("expected failure"),
    }
}

#[test]
fn deadline_comment_text() {
    let mut j = job();
    j.benchmarks = "[\"tpch\",\"tpcds\"]".into();
    assert_eq!(
        deadline_exceeded_comment(&config(), &j, ""),
        "Benchmark for [this request](https://github.com/apache/datafusion/pull/42#issuecomment-100) hit the 7200s job deadline before finishing.\n\nBenchmarks requested: `tpch, tpcds`\n\n---\n[File an issue](https://github.com/o/runner/issues) against this benchmark runner"
    );
    j.benchmarks = "garbage".into();
    let body = deadline_exceeded_comment(&config(), &j, "msg");
    assert!(body.contains("Benchmarks requested: `garbage`"));
    assert!(body.contains("<details><summary>Kubernetes message</summary>\n\n```\nmsg\n```\n\n</details>"));
}

#[test]
fn pending_outcomes() {
    match pending_job_outcome(&config(), &job(), Ok("bench-c100-5".into())) {
        StartOutcome::Started { k8s_name } => assert_eq!(k8s_name, "bench-c100-5"),
        _ => panic!("expected a start"),
    }
    match pending_job_outcome(&config(), &job(), Err("boom".into())) {
        StartOutcome::Failed { error_message, comment } => {
            assert_eq!(error_message, "Failed to create K8s Job: boom");
            assert!(comment.starts_with("Failed to start benchmark for [this request](https://github.com/apache/datafusion/pull/42#issuecomment-100): boom\n\n---\n"));
        }
        _ => panic!("expected a failure"),
    }
}

#[test]
fn legacy_and_object_env_plan_alike() {
    let mut legacy = job();
    legacy.env_vars = r#"["K=V"]"#.to_string();
    let mut object = job();
    object.env_vars = r#"{"K":"V"}"#.to_string();
    let a = plan_k8s_job(&config(), &legacy, "tok", "head").unwrap();
    let b = plan_k8s_job(&config(), &object, "tok", "head").unwrap();
    assert_eq!(format!("{:?}", a), format!("{:?}", b));
    assert_eq!(value_of(&a, "K").as_deref(), Some("V"));
}

#[test]
fn plan_pod_template_fields() {
    let plan = plan_k8s_job(&config(), &job(), "secret", "").unwrap();
    let label = |k: &str| plan.labels.iter().find(|(n, _)| n == k).map(|(_, v)| v.clone());
    assert_eq!(label("app").as_deref(), Some("benchmark-runner"));
    assert_eq!(label("comment-id"), Some(plan.comment_label.clone()));
    assert_eq!(label("triggered-by"), Some(plan.triggered_by.clone()));
    assert_eq!(plan.pod_labels.len(), 2);
    assert_eq!(
        plan.node_selector,
        vec![
            ("cloud.google.com/compute-class".to_string(), "Performance".to_string()),
            ("cloud.google.com/machine-family".to_string(), plan.machine_family.clone()),
            ("kubernetes.io/arch".to_string(), plan.arch.clone()),
        ]
    );
    assert_eq!(plan.backoff_limit, 0);
    assert_eq!(plan.service_account, "benchmark-runner");
    assert_eq!(plan.restart_policy, "Never");
    assert_eq!(
        (plan.toleration_key.as_str(), plan.toleration_operator.as_str(), plan.toleration_effect.as_str()),
        ("cloud.google.com/gke-spot", "Exists", "NoSchedule")
    );
}

#[test]
fn legacy_env_list_reads_in_key_order() {
    let legacy = shared_env(r#"["B=2", "A=x=y", "junk", "B=3"]"#).unwrap();
    assert_eq!(
        legacy,
        vec![("A".to_string(), "x=y".to_string()), ("B".to_string(), "3".to_string())]
    );
    assert_eq!(legacy, shared_env(r#"{"B":"3","A":"x=y"}"#).unwrap());
    let mut a = job();
    a.env_vars = r#"["Z=1","A=2"]"#.to_string();
    let mut b = job();
    b.env_vars = r#"{"A":"2","Z":"1"}"#.to_string();
    assert_eq!(
        format!("{:?}", plan_k8s_job(&config(), &a, "t", "h").unwrap()),
        format!("{:?}", plan_k8s_job(&config(), &b, "t", "h").unwrap())
    );
}
