use benchmark_controller::comment_render::{extract_user_body, render, MARKER_BEGIN, MARKER_END};

#[test]
fn extract_returns_original_when_no_marker() {
    assert_eq!(extract_user_body("run benchmark tpch"), "run benchmark tpch");
}

#[test]
fn extract_strips_bot_block() {
    let body = format!("run benchmark tpch\n\n{MARKER_BEGIN}\nstuff\n{MARKER_END}",);
    assert_eq!(extract_user_body(&body), "run benchmark tpch");
}

#[test]
fn extract_handles_marker_at_start() {
    let body = format!("{MARKER_BEGIN}\nstuff\n{MARKER_END}");
    assert_eq!(extract_user_body(&body), "");
}

#[test]
fn render_with_no_sections_returns_user_body() {
    assert_eq!(render("hello", &[], ""), "hello");
    assert_eq!(render("hello", &["".to_string()], ""), "hello");
}

#[test]
fn render_appends_single_section() {
    let out = render("run benchmark tpch", &["section A".to_string()], "");
    assert!(out.starts_with("run benchmark tpch\n\n"));
    assert!(out.contains(MARKER_BEGIN));
    assert!(out.contains("section A"));
    assert!(out.trim_end().ends_with(MARKER_END));
}

#[test]
fn render_multiple_sections_separated() {
    let out = render("trigger", &["A".to_string(), "B".to_string(), "C".to_string()], "");
    let a = out.find('A').unwrap();
    let b = out.find('B').unwrap();
    let c = out.find('C').unwrap();
    assert!(a < b && b < c);
}

#[test]
fn render_replaces_prior_bot_block() {
    let prior = format!("trigger\n\n{MARKER_BEGIN}\nold section\n{MARKER_END}",);
    let out = render(&prior, &["new section".to_string()], "");
    assert!(out.contains("new section"));
    assert!(!out.contains("old section"));
    assert_eq!(out.matches(MARKER_BEGIN).count(), 1);
    assert_eq!(out.matches(MARKER_END).count(), 1);
}

#[test]
fn render_includes_footer_inside_block() {
    let out = render("trigger", &["section".to_string()], "\n\n---\n[issue]");
    let begin = out.find(MARKER_BEGIN).unwrap();
    let end = out.find(MARKER_END).unwrap();
    let issue = out.find("[issue]").unwrap();
    assert!(begin < issue && issue < end);
}

// ── laws on concrete values ─────────────────────────────────────────

#[test]
fn render_then_extract_gives_user_body_back() {
    let original = "run benchmark tpch\nenv:\n  A: 1";
    let out = render(original, &["one".to_string(), "two".to_string()], "\n---\nfooter");
    assert_eq!(extract_user_body(&out), original);
}

#[test]
fn rerender_replaces_block_and_is_stable() {
    let first = render("trigger", &["s1".to_string()], "");
    let second = render(&first, &["s2".to_string()], "");
    assert_eq!(second, render("trigger", &["s2".to_string()], ""));
    assert_eq!(extract_user_body(&extract_user_body(&second).to_string()), extract_user_body(&second));
}

#[test]
fn render_without_sections_keeps_body_unchanged() {
    let prior = format!("trigger\n\n{MARKER_BEGIN}\nold\n{MARKER_END}");
    assert_eq!(render(&prior, &[], ""), prior);
    assert_eq!(render("hello \n", &["  ".to_string()], "footer"), "hello \n");
}
