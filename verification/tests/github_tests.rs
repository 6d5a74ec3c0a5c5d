use benchmark_controller::github::{
    api_error_message, comments_url, following_page, is_retryable, issue_comments_url,
    issues_footer, next_page_url, parse_next_link, pull_url, reactions_url, retry_after_secs,
    RequestFailure, MAX_PAGES,
};

fn message(m: &str) -> RequestFailure {
    RequestFailure::Other { message: m.to_string() }
}

#[test]
fn parse_next_link_standard() {
    let header = r#"<https://api.github.com/repos/foo/bar/issues/comments?page=2>; rel="next", <https://api.github.com/repos/foo/bar/issues/comments?page=5>; rel="last""#;
    assert_eq!(
        parse_next_link(header),
        Some("https://api.github.com/repos/foo/bar/issues/comments?page=2".to_string())
    );
}

#[test]
fn parse_next_link_missing() {
    let header = r#"<https://api.github.com/repos/foo/bar/issues/comments?page=5>; rel="last""#;
    assert_eq!(parse_next_link(header), None);
}

#[test]
fn parse_next_link_empty() {
    assert_eq!(parse_next_link(""), None);
}

#[test]
fn retryable_on_server_error_message() {
    assert!(is_retryable(&message("GitHub API GET error 500 Internal Server Error: oops")));
}

#[test]
fn retryable_on_429_message() {
    assert!(is_retryable(&message("GitHub API GET error 429 Too Many Requests: slow down")));
}

#[test]
fn not_retryable_on_404() {
    assert!(!is_retryable(&message("GitHub API GET error 404 Not Found: nope")));
}

#[test]
fn not_retryable_on_401() {
    assert!(!is_retryable(&message("GitHub API GET error 401 Unauthorized: bad token")));
}

// ── further cases ───────────────────────────────────────────────────

#[test]
fn transport_failures_retryable_by_kind_and_status() {
    let t = |c, t, r, s| RequestFailure::Transport { is_connect: c, is_timeout: t, is_request: r, status: s };
    assert!(is_retryable(&t(true, false, false, Some(404))));
    assert!(is_retryable(&t(false, true, false, None)));
    assert!(is_retryable(&t(false, false, false, None)));
    assert!(is_retryable(&t(false, false, false, Some(503))));
    assert!(is_retryable(&t(false, false, false, Some(429))));
    assert!(!is_retryable(&t(false, false, false, Some(404))));
    assert!(!is_retryable(&t(false, false, false, Some(600))));
}

#[test]
fn api_error_messages_of_server_errors_are_retried() {
    let m = api_error_message("POST", "502 Bad Gateway", "");
    assert_eq!(m, "GitHub API POST error 502 Bad Gateway: ");
    assert!(is_retryable(&message(&m)));
    assert!(is_retryable(&message(&api_error_message("GET", "429 Too Many Requests", "x"))));
    assert!(!is_retryable(&message(&api_error_message("GET", "403 Forbidden", "x"))));
}

#[test]
fn next_link_found_among_others_and_trimmed() {
    let header = "<https://a/x?page=1>; rel=\"prev\",   <https://a/x?page=3>; rel=\"next\"  ";
    assert_eq!(parse_next_link(header), Some("https://a/x?page=3".to_string()));
    assert_eq!(parse_next_link("https://a/x; rel=\"next\""), None);
}

#[test]
fn paging_stops_on_empty_page_or_limit() {
    let h = Some("<https://n>; rel=\"next\"");
    assert_eq!(next_page_url(h, 3), Some("https://n".to_string()));
    assert_eq!(next_page_url(h, 0), None);
    assert_eq!(next_page_url(None, 3), None);
    assert_eq!(following_page(0, h, 3), Some("https://n".to_string()));
    assert_eq!(following_page(MAX_PAGES - 1, h, 3), None);
}

#[test]
fn retry_after_parsing() {
    assert_eq!(retry_after_secs(Some("30")), Some(30));
    assert_eq!(retry_after_secs(Some("+7")), Some(7));
    assert_eq!(retry_after_secs(Some("soon")), None);
    assert_eq!(retry_after_secs(Some("-1")), None);
    assert_eq!(retry_after_secs(None), None);
}

#[test]
fn footer_only_for_nonempty_url() {
    assert_eq!(
        issues_footer(Some("https://github.com/o/r")),
        "\n\n---\n[File an issue](https://github.com/o/r/issues) against this benchmark runner"
    );
    assert_eq!(issues_footer(Some("")), "");
    assert_eq!(issues_footer(None), "");
}

#[test]
fn api_urls() {
    assert_eq!(comments_url("o/r"), "https://api.github.com/repos/o/r/issues/comments");
    assert_eq!(issue_comments_url("o/r", 7), "https://api.github.com/repos/o/r/issues/7/comments");
    assert_eq!(pull_url("o/r", 7), "https://api.github.com/repos/o/r/pulls/7");
    assert_eq!(
        reactions_url("o/r", 99),
        "https://api.github.com/repos/o/r/issues/comments/99/reactions"
    );
}
