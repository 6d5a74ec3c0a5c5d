use benchmark_controller::health::{
    bearer_token, check_runner_access, comment_body_response, constant_time_eq, find_header_end,
    parse_job_comment_path, parse_request_head, route, status_allows_runner_comment, ReadStep,
    RequestError, RequestReader, Response, Route,
};

#[test]
fn path_parse_ok() {
    assert_eq!(parse_job_comment_path("/jobs/42/comment"), Some(42));
    assert_eq!(parse_job_comment_path("/jobs/1/comment"), Some(1));
}

#[test]
fn path_parse_rejects_other() {
    assert_eq!(parse_job_comment_path("/jobs/42"), None);
    assert_eq!(parse_job_comment_path("/jobs/abc/comment"), None);
    assert_eq!(parse_job_comment_path("/jobs/42/other"), None);
    assert_eq!(parse_job_comment_path("/other"), None);
}

#[test]
fn ct_eq_true_on_equal() {
    assert!(constant_time_eq(b"abc", b"abc"));
}

#[test]
fn ct_eq_false_on_different_len() {
    assert!(!constant_time_eq(b"abc", b"abcd"));
}

#[test]
fn ct_eq_false_on_different_bytes() {
    assert!(!constant_time_eq(b"abc", b"abd"));
}

#[test]
fn header_end_finds_boundary() {
    let buf = b"GET / HTTP/1.1\r\nHost: x\r\n\r\nbody";
    let pos = find_header_end(buf).unwrap();
    assert_eq!(&buf[pos..pos + 4], b"\r\n\r\n");
}

#[test]
fn runner_comments_allowed_for_non_terminal_states() {
    assert!(status_allows_runner_comment("pending"));
    assert!(status_allows_runner_comment("running"));
}

#[test]
fn runner_comments_rejected_for_terminal_states() {
    assert!(!status_allows_runner_comment("completed"));
    assert!(!status_allows_runner_comment("failed"));
}

// ── further cases ───────────────────────────────────────────────────

#[test]
fn path_round_trip_and_trailing_parts() {
    for id in [0i64, 7, -3, i64::MAX] {
        assert_eq!(parse_job_comment_path(&format!("/jobs/{id}/comment")), Some(id));
    }
    assert_eq!(parse_job_comment_path("/jobs/4/comment/"), None);
    assert_eq!(parse_job_comment_path("/jobs//comment"), None);
}

#[test]
fn routes() {
    assert_eq!(route("GET", "/healthz", false), Route::Respond(Response::Success));
    assert_eq!(route("GET", "/readyz", true), Route::Respond(Response::Success));
    assert_eq!(route("GET", "/readyz", false), Route::Respond(Response::Unavailable));
    assert_eq!(route("POST", "/jobs/9/comment", false), Route::JobComment(9));
    assert_eq!(route("GET", "/jobs/9/comment", true), Route::Respond(Response::NotFound));
    assert_eq!(route("POST", "/healthz", true), Route::Respond(Response::NotFound));
}

#[test]
fn response_texts() {
    assert_eq!(Response::Success.text(), "HTTP/1.1 200 OK\r\nContent-Length: 2\r\n\r\nok");
    assert_eq!(
        Response::Unavailable.text(),
        "HTTP/1.1 503 Service Unavailable\r\nContent-Length: 9\r\n\r\nnot ready"
    );
    assert_eq!(Response::PayloadTooLarge.text(), "HTTP/1.1 413 Payload Too Large\r\nContent-Length: 0\r\n\r\n");
}

#[test]
fn bearer_tokens() {
    assert_eq!(bearer_token("Bearer  abc "), Some("abc".to_string()));
    assert_eq!(bearer_token("bearer xyz"), Some("xyz".to_string()));
    assert_eq!(bearer_token("Basic abc"), None);
    assert_eq!(bearer_token("BEARER abc"), None);
}

#[test]
fn runner_access_decisions() {
    assert_eq!(check_runner_access("tok", Some("tok"), "running"), None);
    assert_eq!(check_runner_access("tok", Some("tok"), "pending"), None);
    assert_eq!(check_runner_access("tok", Some("tok"), "completed"), Some(Response::Conflict));
    assert_eq!(check_runner_access("bad", Some("tok"), "running"), Some(Response::Unauthorized));
    assert_eq!(check_runner_access("tok", None, "running"), Some(Response::Unauthorized));
    assert_eq!(comment_body_response(""), Some(Response::BadRequest));
    assert_eq!(comment_body_response("hi"), None);
}

#[test]
fn request_head_parsing() {
    let h = parse_request_head(b"POST /jobs/1/comment HTTP/1.1\r\nHost: x\r\nContent-Length: 5\r\nX-Bad\r\n").unwrap();
    assert_eq!(h.method, "POST");
    assert_eq!(h.path, "/jobs/1/comment");
    assert_eq!(h.headers.len(), 2);
    assert_eq!(h.content_length, 5);
    assert!(matches!(parse_request_head(b"GET\r\n"), Err(RequestError::Malformed)));
    assert!(matches!(parse_request_head(b"GET / HTTP/1.1\r\n\xff: x"), Err(RequestError::Malformed)));
    assert!(matches!(
        parse_request_head(b"POST / HTTP/1.1\r\ncontent-length: 999999999"),
        Err(RequestError::TooLarge)
    ));
    assert_eq!(parse_request_head(b"GET / HTTP/1.1\r\nContent-Length: x").unwrap().content_length, 0);
}

#[test]
fn reader_reads_head_and_body_across_chunks() {
    let mut r = RequestReader::new();
    assert!(matches!(r.feed(b"POST /jobs/3/comment HTTP/1.1\r\nAuthor"), ReadStep::ReadMore));
    assert!(matches!(r.feed(b"ization: Bearer t\r\nContent-Length: 4\r\n\r\nab"), ReadStep::ReadMore));
    match r.feed(b"cdEXTRA") {
        ReadStep::Done(req) => {
            assert_eq!(req.method, "POST");
            assert_eq!(req.header("authorization"), Some("Bearer t"));
            assert_eq!(req.header("CONTENT-LENGTH"), Some("4"));
            assert_eq!(req.body, b"abcd".to_vec());
        }
        _ => panic!("expected a request"),
    }
}

#[test]
fn reader_closed_before_head_and_short_body() {
    let mut r = RequestReader::new();
    assert!(matches!(r.feed(b"GET / HT"), ReadStep::ReadMore));
    assert!(matches!(r.close(), ReadStep::Closed));
    let mut r = RequestReader::new();
    assert!(matches!(r.feed(b"POST / HTTP/1.1\r\nContent-Length: 10\r\n\r\nabc"), ReadStep::ReadMore));
    match r.close() {
        ReadStep::Done(req) => assert_eq!(req.body, b"abc".to_vec()),
        _ => panic!("expected a request"),
    }
}

#[test]
fn reader_refuses_oversized_head() {
    let mut r = RequestReader::new();
    let chunk = vec![b'a'; 2048];
    let mut last = ReadStep::ReadMore;
    for _ in 0..70 {
        last = r.feed(&chunk);
        if !matches!(last, ReadStep::ReadMore) {
            break;
        }
    }
    assert!(matches!(last, ReadStep::Failed(RequestError::TooLarge)));
}
