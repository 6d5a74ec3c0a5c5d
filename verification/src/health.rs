//! The controller's small HTTP endpoint: liveness and readiness probes and
//! `POST /jobs/{id}/comment`, through which runner pods post PR comments
//! with a per-job token.
//!
//! This module holds its decisions and its request parsing; the service
//! reads the socket, looks jobs up and posts the comments.

use vstd::prelude::*;
use vstd::string::StrSliceExecFns;

use crate::models::{job_status_text, pair_views, JobStatus};
use vstd::utf8::{decode_utf8, valid_utf8};
use crate::text::{
    chars_of, first_index_in, first_index_of, int_dec, lemma_dec_digits, lemma_parse_i64_int_dec,
    parse_i64, parse_i64_range, range_starts_with, starts_with, string_of_range, trim,
    trim_bounds, is_digit, dec, eq_ignore_ascii_case, parse_u64, parse_u64_range, split_ws,
    range_eq_ignore_ascii_case,
};

verus! {

/// Hard cap on a single POST body. GitHub rejects comments over ~65 KB, so
/// 128 KB is more than enough and keeps a runaway runner from exhausting
/// the controller's memory.
pub const MAX_BODY_BYTES: usize = 128 * 1024;

/// The canned responses of the endpoint.
#[derive(Debug, Clone, Copy, PartialEq, Eq, Structural)]
pub enum Response {
    Success,
    NotFound,
    BadRequest,
    Unauthorized,
    Conflict,
    Internal,
    PayloadTooLarge,
    Unavailable,
}

/// The full HTTP/1.1 text of a response.
pub open spec fn response_text(r: Response) -> Seq<char> {
    match r {
        Response::Success => "HTTP/1.1 200 OK\r\nContent-Length: 2\r\n\r\nok"@,
        Response::NotFound => "HTTP/1.1 404 Not Found\r\nContent-Length: 0\r\n\r\n"@,
        Response::BadRequest => "HTTP/1.1 400 Bad Request\r\nContent-Length: 0\r\n\r\n"@,
        Response::Unauthorized => "HTTP/1.1 401 Unauthorized\r\nContent-Length: 0\r\n\r\n"@,
        Response::Conflict => "HTTP/1.1 409 Conflict\r\nContent-Length: 0\r\n\r\n"@,
        Response::Internal => "HTTP/1.1 500 Internal Server Error\r\nContent-Length: 0\r\n\r\n"@,
        Response::PayloadTooLarge => "HTTP/1.1 413 Payload Too Large\r\nContent-Length: 0\r\n\r\n"@,
        Response::Unavailable => "HTTP/1.1 503 Service Unavailable\r\nContent-Length: 9\r\n\r\nnot ready"@,
    }
}

impl Response {
    /// The text to write back on the connection.
    pub fn text(&self) -> (r: &'static str)
        ensures
            r@ == response_text(*self),
    {
        match self {
            Response::Success => "HTTP/1.1 200 OK\r\nContent-Length: 2\r\n\r\nok",
            Response::NotFound => "HTTP/1.1 404 Not Found\r\nContent-Length: 0\r\n\r\n",
            Response::BadRequest => "HTTP/1.1 400 Bad Request\r\nContent-Length: 0\r\n\r\n",
            Response::Unauthorized => "HTTP/1.1 401 Unauthorized\r\nContent-Length: 0\r\n\r\n",
            Response::Conflict => "HTTP/1.1 409 Conflict\r\nContent-Length: 0\r\n\r\n",
            Response::Internal => "HTTP/1.1 500 Internal Server Error\r\nContent-Length: 0\r\n\r\n",
            Response::PayloadTooLarge => "HTTP/1.1 413 Payload Too Large\r\nContent-Length: 0\r\n\r\n",
            Response::Unavailable => "HTTP/1.1 503 Service Unavailable\r\nContent-Length: 9\r\n\r\nnot ready",
        }
    }
}

// ─────────────────────────────── routing ──────────────────────────────

/// The job id in a `/jobs/{id}/comment` path.
pub open spec fn job_comment_id(path: Seq<char>) -> Option<i64> {
    if starts_with(path, "/jobs/"@) {
        let rest = path.skip(6);
        let i = first_index_of(rest, '/');
        if i >= 0 && rest.skip(i + 1) == "comment"@ {
            parse_i64(rest.take(i))
        } else {
            None
        }
    } else {
        None
    }
}

/// The job id of a `/jobs/{id}/comment` path, if it is one.
pub fn parse_job_comment_path(path: &str) -> (r: Option<i64>)
    ensures
        r == job_comment_id(path@),
{
    let v = chars_of(path);
    let prefix = chars_of("/jobs/");
    let comment = chars_of("comment");
    proof {
        reveal_strlit("/jobs/");
        assert(v@.subrange(0, v@.len() as int) =~= v@);
    }
    if !range_starts_with(&v, 0, v.len(), &prefix) {
        return None;
    }
    let ghost rest = v@.skip(6);
    proof {
        assert(v@.subrange(6, v@.len() as int) =~= rest);
    }
    match first_index_in(&v, 6, v.len(), '/') {
        None => None,
        Some(i) => {
            let tail = string_of_range(&v, i + 1, v.len());
            let same = crate::text::str_eq(tail.as_str(), "comment");
            proof {
                assert(rest.skip(i - 6 + 1) =~= v@.subrange(i + 1, v@.len() as int));
            }
            if !same {
                return None;
            }
            proof {
                assert(rest.take(i - 6) =~= v@.subrange(6, i as int));
            }
            parse_i64_range(&v, 6, i)
        },
    }
}

/// `/jobs/{id}/comment` gives `id` back.
pub proof fn lemma_job_comment_path(id: i64)
    ensures
        job_comment_id("/jobs/"@ + int_dec(id as int) + "/comment"@) == Some(id),
{
    reveal_strlit("/jobs/");
    reveal_strlit("/comment");
    reveal_strlit("comment");
    let d = int_dec(id as int);
    let m: nat = if id < 0 {
        (-id) as nat
    } else {
        id as nat
    };
    lemma_dec_digits(m);
    assert forall|i: int| 0 <= i < d.len() implies d[i] != '/' by {
        if id < 0 {
            if i > 0 {
                assert(d[i] == dec(m)[i - 1]);
                assert(is_digit(dec(m)[i - 1]));
            }
        } else {
            assert(is_digit(dec(m)[i]));
        }
    }
    let p = "/jobs/"@ + d + "/comment"@;
    assert(p.take(6) =~= "/jobs/"@);
    let rest = p.skip(6);
    assert(rest =~= d + "/comment"@);
    crate::text::lemma_first_index_of_at(rest, '/', d.len() as int);
    assert(rest.skip(d.len() as int + 1) =~= "comment"@);
    assert(rest.take(d.len() as int) =~= d);
    lemma_parse_i64_int_dec(id);
}

/// Where a request goes.
#[derive(Debug, Clone, Copy, PartialEq, Eq, Structural)]
pub enum Route {
    /// Answer at once.
    Respond(Response),
    /// A runner's comment for job `id`: authenticate and post it.
    JobComment(i64),
}

pub open spec fn route_of(method: Seq<char>, path: Seq<char>, ready: bool) -> Route {
    if method == "GET"@ && path == "/healthz"@ {
        Route::Respond(Response::Success)
    } else if method == "GET"@ && path == "/readyz"@ {
        Route::Respond(if ready { Response::Success } else { Response::Unavailable })
    } else if method == "POST"@ && job_comment_id(path) is Some {
        Route::JobComment(job_comment_id(path)->0)
    } else {
        Route::Respond(Response::NotFound)
    }
}

/// Route a request: `GET /healthz` (liveness), `GET /readyz` (readiness,
/// once both loops have started) and `POST /jobs/{id}/comment`; anything
/// else is not found.
pub fn route(method: &str, path: &str, ready: bool) -> (r: Route)
    ensures
        r == route_of(method@, path@, ready),
{
    let get = crate::text::str_eq(method, "GET");
    if get && crate::text::str_eq(path, "/healthz") {
        return Route::Respond(Response::Success);
    }
    if get && crate::text::str_eq(path, "/readyz") {
        return Route::Respond(
            if ready {
                Response::Success
            } else {
                Response::Unavailable
            },
        );
    }
    if crate::text::str_eq(method, "POST") {
        if let Some(job_id) = parse_job_comment_path(path) {
            return Route::JobComment(job_id);
        }
    }
    Route::Respond(Response::NotFound)
}

// ──────────────────────────── authentication ──────────────────────────

/// Whether two byte strings are equal, comparing every byte whatever the
/// earlier ones were (lengths are compared first).
pub fn constant_time_eq(a: &[u8], b: &[u8]) -> (r: bool)
    ensures
        r == (a@ == b@),
{
    if a.len() != b.len() {
        return false;
    }
    let mut diff: u8 = 0;
    let mut i: usize = 0;
    while i < a.len()
        invariant
            a@.len() == b@.len(),
            0 <= i <= a@.len(),
            (diff == 0) == (forall|j: int| 0 <= j < i ==> a@[j] == b@[j]),
        decreases a@.len() - i,
    {
        let x = a[i];
        let y = b[i];
        let d = diff;
        diff = diff | (x ^ y);
        proof {
            assert((d | (x ^ y)) == 0 <==> (d == 0 && x == y)) by (bit_vector);
        }
        i = i + 1;
    }
    proof {
        if diff == 0 {
            assert(a@ =~= b@);
        }
    }
    diff == 0
}

/// Whether a job in state `status` still accepts runner comments.
pub open spec fn allows_runner_comment(status: Seq<char>) -> bool {
    status == "pending"@ || status == "running"@
}

/// The runner may post while the job is pending (the reconciler may not
/// have marked it running yet) or running, never after it has finished.
pub fn status_allows_runner_comment(status: &str) -> (r: bool)
    ensures
        r == allows_runner_comment(status@),
{
    crate::text::str_eq(status, "pending") || crate::text::str_eq(status, "running")
}

/// Exactly the pending and running jobs accept runner comments.
pub proof fn lemma_runner_comment_states(s: JobStatus)
    ensures
        allows_runner_comment(job_status_text(s)) <==> (s == JobStatus::Pending || s
            == JobStatus::Running),
{
    reveal_strlit("pending");
    reveal_strlit("running");
    reveal_strlit("completed");
    reveal_strlit("failed");
    match s {
        JobStatus::Completed => {
            assert("completed"@.len() != "pending"@.len());
            assert("completed"@.len() != "running"@.len());
        },
        JobStatus::Failed => {
            assert("failed"@.len() != "pending"@.len());
            assert("failed"@.len() != "running"@.len());
        },
        _ => {},
    }
}

/// The token of an `Authorization: Bearer <token>` value.
pub open spec fn bearer_of(auth: Seq<char>) -> Option<Seq<char>> {
    if starts_with(auth, "Bearer "@) || starts_with(auth, "bearer "@) {
        Some(trim(auth.skip(7)))
    } else {
        None
    }
}

/// The token of an `Authorization` header value (`Bearer <token>` or
/// `bearer <token>`, surrounding whitespace ignored).
pub fn bearer_token(authorization: &str) -> (r: Option<String>)
    ensures
        crate::yaml::opt_view(r) == bearer_of(authorization@),
{
    let v = chars_of(authorization);
    let upper = chars_of("Bearer ");
    let lower = chars_of("bearer ");
    proof {
        reveal_strlit("Bearer ");
        reveal_strlit("bearer ");
        assert(v@.subrange(0, v@.len() as int) =~= v@);
    }
    if range_starts_with(&v, 0, v.len(), &upper) || range_starts_with(&v, 0, v.len(), &lower) {
        let (a, b) = trim_bounds(&v, 7, v.len());
        proof {
            assert(v@.subrange(7, v@.len() as int) =~= v@.skip(7));
        }
        Some(string_of_range(&v, a, b))
    } else {
        None
    }
}

/// Whether a runner that presented `supplied` may comment on a job whose
/// stored token is `stored` and whose state is `status`: `None` when it
/// may, else the refusal.
pub open spec fn runner_access(supplied: Seq<char>, stored: Option<Seq<char>>, status: Seq<char>) -> Option<
    Response,
> {
    match stored {
        Some(t) => if t == supplied {
            if allows_runner_comment(status) {
                None
            } else {
                Some(Response::Conflict)
            }
        } else {
            Some(Response::Unauthorized)
        },
        None => Some(Response::Unauthorized),
    }
}

/// Check a runner's token against the job's (in constant time) and the
/// job's state.
pub fn check_runner_access(supplied: &str, stored: Option<&str>, status: &str) -> (r: Option<
    Response,
>)
    ensures
        r == runner_access(
            supplied@,
            match stored {
                Some(t) => Some(t@),
                None => None,
            },
            status@,
        ),
{
    match stored {
        Some(tok) => {
            let x = tok.as_bytes_vec();
            let y = supplied.as_bytes_vec();
            let same = constant_time_eq(x.as_slice(), y.as_slice());
            proof {
                vstd::utf8::encode_utf8_decode_utf8(tok@);
                vstd::utf8::encode_utf8_decode_utf8(supplied@);
            }
            if !same {
                return Some(Response::Unauthorized);
            }
            if !status_allows_runner_comment(status) {
                return Some(Response::Conflict);
            }
            None
        },
        None => Some(Response::Unauthorized),
    }
}

/// What to answer a runner's comment whose JSON payload carried `body`:
/// an empty comment is a bad request, anything else is posted.
pub fn comment_body_response(body: &str) -> (r: Option<Response>)
    ensures
        r == if body@.len() == 0 {
            Some(Response::BadRequest)
        } else {
            None::<Response>
        },
{
    if body.is_empty() {
        Some(Response::BadRequest)
    } else {
        None
    }
}


// ──────────────────────── HTTP/1.1 request parsing ────────────────────

/// Whether `buf[i..i + 4]` is the header terminator `\r\n\r\n`.
pub open spec fn blank_line_at(buf: Seq<u8>, i: int) -> bool {
    0 <= i && i + 4 <= buf.len() && buf[i] == 13 && buf[i + 1] == 10 && buf[i + 2] == 13 && buf[i
        + 3] == 10
}

/// The position of the first header terminator in `buf` at or after `k`.
pub open spec fn header_end_from(buf: Seq<u8>, k: int) -> Option<int>
    decreases buf.len() - k,
{
    if k < 0 || k + 4 > buf.len() {
        None
    } else if blank_line_at(buf, k) {
        Some(k)
    } else {
        header_end_from(buf, k + 1)
    }
}

/// The position of the first header terminator in `buf`.
pub open spec fn header_end_of(buf: Seq<u8>) -> Option<int> {
    header_end_from(buf, 0)
}

proof fn lemma_header_end_from_found(buf: Seq<u8>, k: int)
    requires
        header_end_from(buf, k) is Some,
    ensures
        blank_line_at(buf, header_end_from(buf, k)->0),
    decreases buf.len() - k,
{
    if k >= 0 && k + 4 <= buf.len() && !blank_line_at(buf, k) {
        lemma_header_end_from_found(buf, k + 1);
    }
}

proof fn lemma_header_end_found(buf: Seq<u8>, i: int)
    requires
        header_end_of(buf) == Some(i),
    ensures
        blank_line_at(buf, i),
{
    lemma_header_end_from_found(buf, 0);
}

/// Position of the `\r\n\r\n` that ends the request head.
pub fn find_header_end(buf: &[u8]) -> (r: Option<usize>)
    ensures
        match r {
            Some(i) => header_end_of(buf@) == Some(i as int),
            None => header_end_of(buf@) is None,
        },
{
    let mut i: usize = 0;
    while buf.len() >= 4 && i <= buf.len() - 4
        invariant
            i <= buf@.len(),
            header_end_of(buf@) == header_end_from(buf@, i as int),
        decreases buf@.len() - i,
    {
        if buf[i] == 13 && buf[i + 1] == 10 && buf[i + 2] == 13 && buf[i + 3] == 10 {
            return Some(i);
        }
        i = i + 1;
    }
    None
}

/// `<[u8]>::split` at `\n`: always at least one piece.
pub open spec fn split_lf(s: Seq<u8>) -> Seq<Seq<u8>>
    decreases s.len(),
{
    if s.len() == 0 {
        seq![seq![]]
    } else {
        let init = split_lf(s.drop_last());
        if s.last() == 10 {
            init.push(seq![])
        } else {
            init.update(init.len() - 1, init.last().push(s.last()))
        }
    }
}

proof fn lemma_split_lf_len(s: Seq<u8>)
    ensures
        split_lf(s).len() >= 1,
    decreases s.len(),
{
    if s.len() > 0 {
        lemma_split_lf_len(s.drop_last());
    }
}

/// A line without one trailing `\r`.
pub open spec fn strip_cr_bytes(l: Seq<u8>) -> Seq<u8> {
    if l.len() > 0 && l.last() == 13 {
        l.drop_last()
    } else {
        l
    }
}

/// The lines of a request head.
pub open spec fn head_lines(head: Seq<u8>) -> Seq<Seq<u8>> {
    split_lf(head).map_values(|l: Seq<u8>| strip_cr_bytes(l))
}

/// What `std::str::from_utf8` makes of `bytes`.
pub open spec fn utf8_of(bytes: Seq<u8>) -> Option<Seq<char>> {
    if valid_utf8(bytes) {
        Some(decode_utf8(bytes))
    } else {
        None
    }
}

/// Calls `std::str::from_utf8`, which succeeds exactly on valid UTF-8 and
/// then reads the characters it encodes.
#[verifier::external_body]
fn utf8_string(bytes: &[u8]) -> (r: Option<String>)
    ensures
        crate::yaml::opt_view(r) == utf8_of(bytes@),
{
    std::str::from_utf8(bytes).ok().map(|s| s.to_string())
}

/// The `(name, value)` pairs of header lines: blank lines are skipped,
/// lines without `:` ignored, and a line that is not UTF-8 spoils all.
pub open spec fn header_pairs(lines: Seq<Seq<u8>>) -> Option<Seq<(Seq<char>, Seq<char>)>>
    decreases lines.len(),
{
    if lines.len() == 0 {
        Some(seq![])
    } else {
        match header_pairs(lines.drop_last()) {
            None => None,
            Some(p) => {
                let l = lines.last();
                if l.len() == 0 {
                    Some(p)
                } else {
                    match utf8_of(l) {
                        None => None,
                        Some(t) => {
                            let i = first_index_of(t, ':');
                            if i < 0 {
                                Some(p)
                            } else {
                                Some(p.push((trim(t.take(i)), trim(t.skip(i + 1)))))
                            }
                        },
                    }
                }
            },
        }
    }
}

/// The value of the first header named `name` (ASCII case ignored).
pub open spec fn header_value(h: Seq<(Seq<char>, Seq<char>)>, name: Seq<char>) -> Option<Seq<char>>
    decreases h.len(),
{
    if h.len() == 0 {
        None
    } else if eq_ignore_ascii_case(h[0].0, name) {
        Some(h[0].1)
    } else {
        header_value(h.drop_first(), name)
    }
}

/// The declared body length: the first `Content-Length` as a `usize`, or 0
/// when it is absent or no such number.
pub open spec fn content_length_of(h: Seq<(Seq<char>, Seq<char>)>) -> nat {
    match header_value(h, "content-length"@) {
        Some(v) => match parse_u64(v) {
            Some(n) => if n <= usize::MAX {
                n as nat
            } else {
                0
            },
            None => 0,
        },
        None => 0,
    }
}

/// Why a request was refused while reading it.
#[derive(Debug, Clone, Copy, PartialEq, Eq, Structural)]
pub enum RequestError {
    Malformed,
    TooLarge,
}

pub struct HeadView {
    pub method: Seq<char>,
    pub path: Seq<char>,
    pub headers: Seq<(Seq<char>, Seq<char>)>,
    pub content_length: nat,
}

/// The parsed request head: the request line's method and path, the
/// headers, and the body length they declare (at most [`MAX_BODY_BYTES`]).
pub open spec fn request_head(head: Seq<u8>) -> Result<HeadView, RequestError> {
    let ls = head_lines(head);
    match utf8_of(ls[0]) {
        None => Err(RequestError::Malformed),
        Some(line) => {
            let w = split_ws(line);
            if w.len() < 2 {
                Err(RequestError::Malformed)
            } else {
                match header_pairs(ls.skip(1)) {
                    None => Err(RequestError::Malformed),
                    Some(h) => if content_length_of(h) > MAX_BODY_BYTES {
                        Err(RequestError::TooLarge)
                    } else {
                        Ok(
                            HeadView {
                                method: w[0],
                                path: w[1],
                                headers: h,
                                content_length: content_length_of(h),
                            },
                        )
                    },
                }
            }
        },
    }
}

/// A request head as read off the wire.
#[derive(Debug, Clone)]
pub struct RequestHead {
    pub method: String,
    pub path: String,
    pub headers: Vec<(String, String)>,
    pub content_length: usize,
}

pub open spec fn head_view(h: RequestHead) -> HeadView {
    HeadView {
        method: h.method@,
        path: h.path@,
        headers: pair_views(h.headers@),
        content_length: h.content_length as nat,
    }
}

/// The lines of `head`, each without its trailing `\r`.
fn head_lines_exec(head: &[u8]) -> (r: Vec<Vec<u8>>)
    ensures
        r@.map_values(|l: Vec<u8>| l@) == head_lines(head@),
        r@.len() >= 1,
{
    let mut lines: Vec<Vec<u8>> = Vec::new();
    let mut cur: Vec<u8> = Vec::new();
    let mut i: usize = 0;
    proof {
        assert(head@.take(0) =~= Seq::<u8>::empty());
    }
    while i < head.len()
        invariant
            0 <= i <= head@.len(),
            lines@.map_values(|l: Vec<u8>| l@).push(cur@) == split_lf(head@.take(i as int)),
        decreases head@.len() - i,
    {
        let b = head[i];
        let ghost before = lines@.map_values(|l: Vec<u8>| l@).push(cur@);
        proof {
            assert(head@.take(i + 1).drop_last() =~= head@.take(i as int));
            lemma_split_lf_len(head@.take(i as int));
        }
        if b == 10 {
            let done = cur;
            cur = Vec::new();
            let ghost ls = lines@;
            lines.push(done);
            proof {
                assert(lines@.map_values(|l: Vec<u8>| l@).push(cur@) =~= before.push(seq![]));
            }
        } else {
            let ghost c0 = cur@;
            cur.push(b);
            proof {
                assert(lines@.map_values(|l: Vec<u8>| l@).push(cur@) =~= before.update(
                    before.len() - 1,
                    c0.push(b),
                ));
            }
        }
        i = i + 1;
    }
    lines.push(cur);
    proof {
        assert(head@.take(head@.len() as int) =~= head@);
    }
    let mut out: Vec<Vec<u8>> = Vec::new();
    let mut k: usize = 0;
    while k < lines.len()
        invariant
            0 <= k <= lines@.len(),
            lines@.map_values(|l: Vec<u8>| l@) == split_lf(head@),
            out@.map_values(|l: Vec<u8>| l@) == split_lf(head@).take(k as int).map_values(
                |l: Seq<u8>| strip_cr_bytes(l),
            ),
        decreases lines@.len() - k,
    {
        let l = &lines[k];
        let n = l.len();
        let mut m: Vec<u8> = Vec::new();
        let end = if n > 0 && l[n - 1] == 13 {
            n - 1
        } else {
            n
        };
        let mut j: usize = 0;
        while j < end
            invariant
                0 <= j <= end <= l@.len(),
                m@ == l@.take(j as int),
            decreases end - j,
        {
            m.push(l[j]);
            proof {
                assert(l@.take(j + 1) =~= l@.take(j as int).push(l@[j as int]));
            }
            j = j + 1;
        }
        proof {
            assert(lines@.map_values(|l: Vec<u8>| l@)[k as int] == l@);
            if n > 0 && l@[n - 1] == 13 {
                assert(l@.take(end as int) =~= l@.drop_last());
            } else {
                assert(l@.take(end as int) =~= l@);
            }
        }
        let ghost before = out@;
        out.push(m);
        proof {
            assert(out@.map_values(|l: Vec<u8>| l@) =~= before.map_values(|l: Vec<u8>| l@).push(
                strip_cr_bytes(split_lf(head@)[k as int]),
            ));
            assert(split_lf(head@).take(k + 1).map_values(|l: Seq<u8>| strip_cr_bytes(l))
                =~= split_lf(head@).take(k as int).map_values(|l: Seq<u8>| strip_cr_bytes(l)).push(
                strip_cr_bytes(split_lf(head@)[k as int]),
            ));
        }
        k = k + 1;
    }
    proof {
        assert(split_lf(head@).take(lines@.len() as int) =~= split_lf(head@));
    }
    out
}


proof fn lemma_header_pairs_spoiled(a: Seq<Seq<u8>>, b: Seq<Seq<u8>>)
    requires
        header_pairs(a) is None,
    ensures
        header_pairs(a + b) is None,
    decreases b.len(),
{
    if b.len() == 0 {
        assert(a + b =~= a);
    } else {
        lemma_header_pairs_spoiled(a, b.drop_last());
        assert((a + b).drop_last() =~= a + b.drop_last());
    }
}

fn headers_of(lines: &Vec<Vec<u8>>) -> (r: Option<Vec<(String, String)>>)
    requires
        lines@.len() >= 1,
    ensures
        match r {
            Some(h) => header_pairs(lines@.map_values(|l: Vec<u8>| l@).skip(1)) == Some(
                pair_views(h@),
            ),
            None => header_pairs(lines@.map_values(|l: Vec<u8>| l@).skip(1)) is None,
        },
{
    let ghost ls = lines@.map_values(|l: Vec<u8>| l@).skip(1);
    let mut headers: Vec<(String, String)> = Vec::new();
    let mut k: usize = 1;
    proof {
        assert(ls.take(0) =~= Seq::<Seq<u8>>::empty());
        assert(pair_views(headers@) =~= Seq::<(Seq<char>, Seq<char>)>::empty());
    }
    while k < lines.len()
        invariant
            1 <= k <= lines@.len(),
            ls == lines@.map_values(|l: Vec<u8>| l@).skip(1),
            header_pairs(ls.take(k - 1)) == Some(pair_views(headers@)),
        decreases lines@.len() - k,
    {
        let l = &lines[k];
        let ghost before = headers@;
        proof {
            assert(ls.take(k as int).drop_last() =~= ls.take(k - 1));
            assert(ls.take(k as int).last() == l@);
        }
        if l.len() > 0 {
            match utf8_string(l.as_slice()) {
                None => {
                    proof {
                        assert(ls.take(k as int) + ls.skip(k as int) =~= ls);
                        lemma_header_pairs_spoiled(ls.take(k as int), ls.skip(k as int));
                    }
                    return None;
                },
                Some(text) => {
                    let t = chars_of(text.as_str());
                    match first_index_in(&t, 0, t.len(), ':') {
                        None => {
                            proof {
                                assert(t@.subrange(0, t@.len() as int) =~= t@);
                            }
                        },
                        Some(i) => {
                            let (a, b) = trim_bounds(&t, 0, i);
                            let (c, d) = trim_bounds(&t, i + 1, t.len());
                            let key = string_of_range(&t, a, b);
                            let val = string_of_range(&t, c, d);
                            headers.push((key, val));
                            proof {
                                assert(t@.subrange(0, t@.len() as int) =~= t@);
                                assert(t@.subrange(0, i as int) =~= t@.take(i as int));
                                assert(t@.subrange(i + 1, t@.len() as int) =~= t@.skip(i + 1));
                                assert(pair_views(headers@) =~= pair_views(before).push(
                                    (key@, val@),
                                ));
                            }
                        },
                    }
                },
            }
        }
        k = k + 1;
    }
    proof {
        assert(ls.take(lines@.len() - 1) =~= ls);
    }
    Some(headers)
}

/// The declared body length of a head's headers.
fn content_length_exec(headers: &Vec<(String, String)>) -> (r: usize)
    ensures
        r as nat == content_length_of(pair_views(headers@)),
{
    let ghost h = pair_views(headers@);
    let name = chars_of("content-length");
    let mut k: usize = 0;
    proof {
        assert(h.skip(0) =~= h);
    }
    while k < headers.len()
        invariant
            0 <= k <= headers@.len(),
            h == pair_views(headers@),
            name@ == "content-length"@,
            header_value(h, "content-length"@) == header_value(h.skip(k as int), "content-length"@),
        decreases headers@.len() - k,
    {
        let kv = chars_of(headers[k].0.as_str());
        proof {
            assert(kv@.subrange(0, kv@.len() as int) =~= kv@);
            assert(h.skip(k as int)[0] == h[k as int]);
            assert(h.skip(k as int).drop_first() =~= h.skip(k + 1));
        }
        if range_eq_ignore_ascii_case(&kv, 0, kv.len(), &name) {
            let vv = chars_of(headers[k].1.as_str());
            proof {
                assert(vv@.subrange(0, vv@.len() as int) =~= vv@);
            }
            return match parse_u64_range(&vv, 0, vv.len()) {
                Some(n) => if n <= usize::MAX as u64 {
                    n as usize
                } else {
                    0
                },
                None => 0,
            };
        }
        k = k + 1;
    }
    0
}

/// Parse a request head (the bytes before `\r\n\r\n`).
pub fn parse_request_head(head: &[u8]) -> (r: Result<RequestHead, RequestError>)
    ensures
        match r {
            Ok(h) => request_head(head@) == Ok::<HeadView, RequestError>(head_view(h)),
            Err(e) => request_head(head@) == Err::<HeadView, RequestError>(e),
        },
{
    let lines = head_lines_exec(head);
    let ghost ls = head_lines(head@);
    proof {
        assert(lines@.map_values(|l: Vec<u8>| l@)[0] == lines@[0]@);
    }
    let line = match utf8_string(lines[0].as_slice()) {
        Some(t) => t,
        None => {
            return Err(RequestError::Malformed);
        },
    };
    let v = chars_of(line.as_str());
    let words = crate::text::word_ranges(&v, 0, v.len());
    proof {
        assert(v@.subrange(0, v@.len() as int) =~= v@);
    }
    if words.len() < 2 {
        return Err(RequestError::Malformed);
    }
    let method = string_of_range(&v, words[0].0, words[0].1);
    let path = string_of_range(&v, words[1].0, words[1].1);
    proof {
        assert(crate::text::range_texts(v@, words@)[0] == method@);
        assert(crate::text::range_texts(v@, words@)[1] == path@);
    }
    let headers = match headers_of(&lines) {
        Some(h) => h,
        None => {
            return Err(RequestError::Malformed);
        },
    };
    let content_length = content_length_exec(&headers);
    if content_length > MAX_BODY_BYTES {
        return Err(RequestError::TooLarge);
    }
    Ok(RequestHead { method, path, headers, content_length })
}


/// A request read off a connection.
#[derive(Debug, Clone)]
pub struct Request {
    pub method: String,
    pub path: String,
    pub headers: Vec<(String, String)>,
    pub body: Vec<u8>,
}

pub struct HttpRequestView {
    pub method: Seq<char>,
    pub path: Seq<char>,
    pub headers: Seq<(Seq<char>, Seq<char>)>,
    pub body: Seq<u8>,
}

pub open spec fn http_request_view(r: Request) -> HttpRequestView {
    HttpRequestView {
        method: r.method@,
        path: r.path@,
        headers: pair_views(r.headers@),
        body: r.body@,
    }
}

impl Request {
    /// The value of the first header named `name`, ASCII case ignored.
    pub fn header(&self, name: &str) -> (r: Option<&str>)
        ensures
            match r {
                Some(v) => header_value(pair_views(self.headers@), name@) == Some(v@),
                None => header_value(pair_views(self.headers@), name@) is None,
            },
    {
        let ghost h = pair_views(self.headers@);
        let n = chars_of(name);
        let mut k: usize = 0;
        proof {
            assert(h.skip(0) =~= h);
        }
        while k < self.headers.len()
            invariant
                0 <= k <= self.headers@.len(),
                h == pair_views(self.headers@),
                n@ == name@,
                header_value(h, name@) == header_value(h.skip(k as int), name@),
            decreases self.headers@.len() - k,
        {
            let kv = chars_of(self.headers[k].0.as_str());
            proof {
                assert(kv@.subrange(0, kv@.len() as int) =~= kv@);
                assert(h.skip(k as int)[0] == h[k as int]);
                assert(h.skip(k as int).drop_first() =~= h.skip(k + 1));
            }
            if range_eq_ignore_ascii_case(&kv, 0, kv.len(), &n) {
                return Some(self.headers[k].1.as_str());
            }
            k = k + 1;
        }
        None
    }
}

/// The request a head and the body bytes read after it make: the body is
/// cut to the declared length.
pub open spec fn complete_request(h: HeadView, body: Seq<u8>) -> HttpRequestView {
    HttpRequestView {
        method: h.method,
        path: h.path,
        headers: h.headers,
        body: if body.len() > h.content_length {
            body.take(h.content_length as int)
        } else {
            body
        },
    }
}

/// Where a reader stands.
pub enum ReaderState {
    /// Reading the head; the bytes so far.
    Head(Vec<u8>),
    /// Reading the body of `head`; the body bytes so far.
    Body(RequestHead, Vec<u8>),
    /// A request was handed out or refused.
    Finished,
}

pub enum ReaderView {
    Head(Seq<u8>),
    Body(HeadView, Seq<u8>),
    Finished,
}

/// What the reader asks for after a read.
pub enum ReadStep {
    /// Read more bytes and feed them.
    ReadMore,
    /// The peer closed the connection before the head was complete.
    Closed,
    /// The request is complete.
    Done(Request),
    /// The request is refused.
    Failed(RequestError),
}

pub enum StepView {
    ReadMore,
    Closed,
    Done(HttpRequestView),
    Failed(RequestError),
}

pub open spec fn step_view(s: ReadStep) -> StepView {
    match s {
        ReadStep::ReadMore => StepView::ReadMore,
        ReadStep::Closed => StepView::Closed,
        ReadStep::Done(r) => StepView::Done(http_request_view(r)),
        ReadStep::Failed(e) => StepView::Failed(e),
    }
}

/// Reads one HTTP/1.1 request from the bytes of a connection, fed to it
/// as they arrive: the head up to `\r\n\r\n` (refused past
/// [`MAX_BODY_BYTES`]), then as many body bytes as `Content-Length`
/// declares.
pub struct RequestReader {
    pub state: ReaderState,
}

/// The body bytes that follow a head which ends at `i` in `buf`.
pub open spec fn body_after_head(buf: Seq<u8>, i: int) -> Seq<u8> {
    buf.skip(i + 4)
}

/// The reader's next state and answer once `buf` holds the complete head
/// (ending at `i`) and the first body bytes.
pub open spec fn after_head(buf: Seq<u8>, i: int) -> (ReaderView, StepView) {
    match request_head(buf.take(i)) {
        Err(e) => (ReaderView::Finished, StepView::Failed(e)),
        Ok(h) => {
            let body = body_after_head(buf, i);
            if body.len() >= h.content_length {
                (ReaderView::Finished, StepView::Done(complete_request(h, body)))
            } else {
                (ReaderView::Body(h, body), StepView::ReadMore)
            }
        },
    }
}

/// The reader's next state and answer after `chunk` arrives.
pub open spec fn feed_step(st: ReaderView, chunk: Seq<u8>) -> (ReaderView, StepView) {
    match st {
        ReaderView::Head(buf) => {
            let b = buf + chunk;
            match header_end_of(b) {
                Some(i) => after_head(b, i),
                None => if b.len() > MAX_BODY_BYTES {
                    (ReaderView::Finished, StepView::Failed(RequestError::TooLarge))
                } else {
                    (ReaderView::Head(b), StepView::ReadMore)
                },
            }
        },
        ReaderView::Body(h, body) => {
            let b = body + chunk;
            if b.len() > MAX_BODY_BYTES {
                (ReaderView::Finished, StepView::Failed(RequestError::TooLarge))
            } else if b.len() >= h.content_length {
                (ReaderView::Finished, StepView::Done(complete_request(h, b)))
            } else {
                (ReaderView::Body(h, b), StepView::ReadMore)
            }
        },
        ReaderView::Finished => (ReaderView::Finished, StepView::ReadMore),
    }
}

/// The reader's next state and answer when the peer closes.
pub open spec fn close_step(st: ReaderView) -> (ReaderView, StepView) {
    match st {
        ReaderView::Head(_) => (ReaderView::Finished, StepView::Closed),
        ReaderView::Body(h, body) => (ReaderView::Finished, StepView::Done(complete_request(h, body))),
        ReaderView::Finished => (ReaderView::Finished, StepView::Closed),
    }
}

pub open spec fn state_view(s: ReaderState) -> ReaderView {
    match s {
        ReaderState::Head(b) => ReaderView::Head(b@),
        ReaderState::Body(h, b) => ReaderView::Body(head_view(h), b@),
        ReaderState::Finished => ReaderView::Finished,
    }
}

/// The reader's invariant: the head read so far is short and has no
/// terminator yet; a body read so far is shorter than declared.
pub open spec fn view_wf(v: ReaderView) -> bool {
    match v {
        ReaderView::Head(b) => b.len() <= MAX_BODY_BYTES && header_end_of(b) is None,
        ReaderView::Body(h, b) => b.len() < h.content_length <= MAX_BODY_BYTES,
        ReaderView::Finished => true,
    }
}

impl RequestReader {
    pub open spec fn view(&self) -> ReaderView {
        state_view(self.state)
    }

    pub open spec fn wf(&self) -> bool {
        view_wf(self.view())
    }

    /// A reader that has read nothing.
    pub fn new() -> (r: RequestReader)
        ensures
            r.wf(),
            r.view() == ReaderView::Head(Seq::<u8>::empty()),
    {
        let r = RequestReader { state: ReaderState::Head(Vec::new()) };

        r
    }

    fn copy_from(v: &Vec<u8>, from: usize) -> (r: Vec<u8>)
        requires
            from <= v@.len(),
        ensures
            r@ == v@.skip(from as int),
    {
        let mut out: Vec<u8> = Vec::new();
        let mut k = from;
        while k < v.len()
            invariant
                from <= k <= v@.len(),
                out@ == v@.subrange(from as int, k as int),
            decreases v@.len() - k,
        {
            out.push(v[k]);
            proof {
                assert(v@.subrange(from as int, k + 1) =~= v@.subrange(from as int, k as int).push(
                    v@[k as int],
                ));
            }
            k = k + 1;
        }
        proof {
            assert(v@.subrange(from as int, v@.len() as int) =~= v@.skip(from as int));
        }
        out
    }

    fn append(v: &mut Vec<u8>, chunk: &[u8])
        ensures
            final(v)@ == old(v)@ + chunk@,
    {
        let mut k: usize = 0;
        let ghost start = v@;
        while k < chunk.len()
            invariant
                0 <= k <= chunk@.len(),
                v@ == start + chunk@.take(k as int),
            decreases chunk@.len() - k,
        {
            v.push(chunk[k]);
            proof {
                assert(chunk@.take(k + 1) =~= chunk@.take(k as int).push(chunk@[k as int]));
                assert(start + chunk@.take(k + 1) =~= (start + chunk@.take(k as int)).push(
                    chunk@[k as int],
                ));
            }
            k = k + 1;
        }
        proof {
            assert(chunk@.take(chunk@.len() as int) =~= chunk@);
        }
    }

    fn finish_body(head: RequestHead, body: Vec<u8>) -> (r: Request)
        ensures
            http_request_view(r) == complete_request(head_view(head), body@),
    {
        let ghost b0 = body@;
        let mut body = body;
        body.truncate(head.content_length);
        proof {
            if b0.len() > head.content_length {
                assert(b0.subrange(0, head.content_length as int) =~= b0.take(
                    head.content_length as int,
                ));
            } else {
                assert(b0.subrange(0, b0.len() as int) =~= b0);
            }
        }
        Request { method: head.method, path: head.path, headers: head.headers, body }
    }

    fn head_complete(buf: Vec<u8>, i: usize) -> (r: (ReaderState, ReadStep))
        requires
            blank_line_at(buf@, i as int),
        ensures
            view_wf(state_view(r.0)),
            (state_view(r.0), step_view(r.1)) == after_head(buf@, i as int),
    {
        let mut head_bytes: Vec<u8> = Vec::new();
        let mut k: usize = 0;
        while k < i
            invariant
                0 <= k <= i,
                i + 4 <= buf@.len(),
                head_bytes@ == buf@.take(k as int),
            decreases i - k,
        {
            head_bytes.push(buf[k]);
            proof {
                assert(buf@.take(k + 1) =~= buf@.take(k as int).push(buf@[k as int]));
            }
            k = k + 1;
        }
        match parse_request_head(head_bytes.as_slice()) {
            Err(e) => (ReaderState::Finished, ReadStep::Failed(e)),
            Ok(h) => {
                let n = buf.len();
                assert(i + 4 <= n);
                let body = Self::copy_from(&buf, i + 4);
                if body.len() >= h.content_length {
                    (ReaderState::Finished, ReadStep::Done(Self::finish_body(h, body)))
                } else {
                    (ReaderState::Body(h, body), ReadStep::ReadMore)
                }
            },
        }
    }

    fn feed_head(buf: Vec<u8>, chunk: &[u8]) -> (r: (ReaderState, ReadStep))
        requires
            view_wf(state_view(ReaderState::Head(buf))),
        ensures
            view_wf(state_view(r.0)),
            (state_view(r.0), step_view(r.1)) == feed_step(ReaderView::Head(buf@), chunk@),
    {
        let ghost b0 = buf@;
        let mut buf = buf;
        Self::append(&mut buf, chunk);
        let ghost want = feed_step(ReaderView::Head(b0), chunk@);
        match find_header_end(buf.as_slice()) {
            Some(i) => {
                proof {
                    lemma_header_end_found(buf@, i as int);
                }
                Self::head_complete(buf, i)
            },
            None => {
                proof {
                    assert(header_end_of(buf@) is None);
                }
                if buf.len() > MAX_BODY_BYTES {
                    (ReaderState::Finished, ReadStep::Failed(RequestError::TooLarge))
                } else {
                    (ReaderState::Head(buf), ReadStep::ReadMore)
                }
            },
        }
    }

    fn feed_body(h: RequestHead, body: Vec<u8>, chunk: &[u8]) -> (r: (ReaderState, ReadStep))
        requires
            view_wf(state_view(ReaderState::Body(h, body))),
        ensures
            view_wf(state_view(r.0)),
            (state_view(r.0), step_view(r.1)) == feed_step(
                ReaderView::Body(head_view(h), body@),
                chunk@,
            ),
    {
        let mut body = body;
        Self::append(&mut body, chunk);
        if body.len() > MAX_BODY_BYTES {
            (ReaderState::Finished, ReadStep::Failed(RequestError::TooLarge))
        } else if body.len() >= h.content_length {
            (ReaderState::Finished, ReadStep::Done(Self::finish_body(h, body)))
        } else {
            (ReaderState::Body(h, body), ReadStep::ReadMore)
        }
    }

    /// Take in `chunk`, the bytes of the latest read.
    pub fn feed(&mut self, chunk: &[u8]) -> (r: ReadStep)
        requires
            old(self).wf(),
            !(old(self).view() is Finished),
        ensures
            final(self).wf(),
            (final(self).view(), step_view(r)) == feed_step(old(self).view(), chunk@),
    {
        let mut st = ReaderState::Finished;
        std::mem::swap(&mut st, &mut self.state);
        let (next, step) = match st {
            ReaderState::Head(buf) => Self::feed_head(buf, chunk),
            ReaderState::Body(h, body) => Self::feed_body(h, body, chunk),
            ReaderState::Finished => (ReaderState::Finished, ReadStep::ReadMore),
        };
        self.state = next;
        step
    }

    /// The peer closed the connection.
    pub fn close(&mut self) -> (r: ReadStep)
        ensures
            final(self).wf(),
            (final(self).view(), step_view(r)) == close_step(old(self).view()),
    {
        let mut st = ReaderState::Finished;
        std::mem::swap(&mut st, &mut self.state);
        match st {
            ReaderState::Head(_) => ReadStep::Closed,
            ReaderState::Body(h, body) => ReadStep::Done(Self::finish_body(h, body)),
            ReaderState::Finished => ReadStep::Closed,
        }
    }
}

} // verus!
