//! Decisions around the GitHub REST API: the issues footer, pagination
//! links, which failed requests are worth retrying, and `Retry-After`.

use vstd::prelude::*;

use crate::text::{
    chars_of, contains_seq, ends_with, find_seq, i64_to_string, int_dec, occurs_at, parse_u64,
    parse_u64_range, push_str,
    range_ends_with, range_texts, split_char, split_ranges, string_of_range, trim, trim_bounds,
};
use crate::yaml::opt_view;

verus! {

/// The "file an issue" footer for a configured, non-empty runner repo URL.
pub open spec fn footer_for(url: Option<Seq<char>>) -> Seq<char> {
    match url {
        Some(u) => if u.len() > 0 {
            "\n\n---\n[File an issue]("@ + u + "/issues) against this benchmark runner"@
        } else {
            seq![]
        },
        None => seq![],
    }
}

/// Append the benchmark runner issues link if configured.
pub fn issues_footer(runner_repo_url: Option<&str>) -> (r: String)
    ensures
        r@ == footer_for(
            match runner_repo_url {
                Some(u) => Some(u@),
                None => None,
            },
        ),
{
    let mut s = String::new();
    match runner_repo_url {
        Some(url) => {
            if !url.is_empty() {
                push_str(&mut s, "\n\n---\n[File an issue](");
                push_str(&mut s, url);
                push_str(&mut s, "/issues) against this benchmark runner");
            }
        },
        None => {},
    }
    s
}

/// The suffix of a `Link` header entry for the next page.
pub open spec fn next_suffix() -> Seq<char> {
    ">; rel=\"next\""@
}

/// The URL of a `Link` entry `<url>; rel="next"`, if it is one.
pub open spec fn next_url_of(part: Seq<char>) -> Option<Seq<char>> {
    let p = trim(part);
    if ends_with(p, "rel=\"next\""@) && ends_with(p, next_suffix()) && p.len() > next_suffix().len()
        && p[0] == '<' {
        Some(p.subrange(1, p.len() - next_suffix().len()))
    } else {
        None
    }
}

/// The first next-page URL among comma-separated `Link` entries.
pub open spec fn first_next_url(parts: Seq<Seq<char>>) -> Option<Seq<char>>
    decreases parts.len(),
{
    if parts.len() == 0 {
        None
    } else {
        match next_url_of(parts[0]) {
            Some(u) => Some(u),
            None => first_next_url(parts.drop_first()),
        }
    }
}

/// Parse the `next` URL from a `Link` header value.
pub fn parse_next_link(link_header: &str) -> (r: Option<String>)
    ensures
        opt_view(r) == first_next_url(split_char(link_header@, ',')),
{
    let v = chars_of(link_header);
    let parts = split_ranges(&v, 0, v.len(), ',');
    let ghost texts = range_texts(v@, parts@);
    proof {
        assert(v@.subrange(0, v@.len() as int) =~= v@);
    }
    let rel = chars_of("rel=\"next\"");
    let suffix = chars_of(">; rel=\"next\"");
    let mut k: usize = 0;
    proof {
        assert(texts.skip(0) =~= texts);
    }
    while k < parts.len()
        invariant
            0 <= k <= parts@.len(),
            texts == range_texts(v@, parts@),
            texts == split_char(link_header@, ','),
            crate::text::ranges_within(parts@, 0, v@.len() as int),
            rel@ == "rel=\"next\""@,
            suffix@ == next_suffix(),
            first_next_url(texts) == first_next_url(texts.skip(k as int)),
        decreases parts@.len() - k,
    {
        let (a, b) = parts[k];
        proof {
            assert(0 <= parts@[k as int].0 <= parts@[k as int].1 <= v@.len());
            assert(texts.skip(k as int)[0] == texts[k as int]);
            assert(texts.skip(k as int).drop_first() =~= texts.skip(k + 1));
        }
        let (ta, tb) = trim_bounds(&v, a, b);
        if range_ends_with(&v, ta, tb, &rel) && range_ends_with(&v, ta, tb, &suffix) && tb - ta
            > suffix.len() && v[ta] == '<' {
            let url = string_of_range(&v, ta + 1, tb - suffix.len());
            proof {
                let p = v@.subrange(ta as int, tb as int);
                assert(texts[k as int] == v@.subrange(a as int, b as int));
                assert(p == trim(texts[k as int]));
                assert(p[0] == v@[ta as int]);
                assert(p.subrange(1, p.len() - suffix@.len()) =~= v@.subrange(
                    ta + 1,
                    tb - suffix@.len(),
                ));
                assert(next_url_of(texts[k as int]) == Some(url@));
                assert(texts.skip(k as int).len() > 0);
                assert(first_next_url(texts.skip(k as int)) == Some(url@));
            }
            return Some(url);
        }
        proof {
            let p = v@.subrange(ta as int, tb as int);
            if p.len() > 0 {
                assert(p[0] == v@[ta as int]);
            }
        }
        k = k + 1;
    }
    None
}

/// What a failed GitHub request reveals about its cause.
#[derive(Debug, Clone)]
pub enum RequestFailure {
    /// The HTTP client failed: a connection, timeout or request-building
    /// error, or a response status it reported.
    Transport { is_connect: bool, is_timeout: bool, is_request: bool, status: Option<u16> },
    /// Any other error, known by its message (such as a non-2xx response,
    /// reported as `GitHub API <method> error <status>: <body>`).
    Other { message: String },
}

/// Whether a failed request is worth retrying: network trouble, a 5xx or
/// 429 status, or an error message that reports one.
pub open spec fn retryable(f: RequestFailure) -> bool {
    match f {
        RequestFailure::Transport { is_connect, is_timeout, is_request, status } => {
            if is_connect || is_timeout || is_request {
                true
            } else {
                match status {
                    Some(s) => (500 <= s <= 599) || s == 429,
                    None => true,
                }
            }
        },
        RequestFailure::Other { message } => contains_seq(message@, "error 5"@) || contains_seq(
            message@,
            "error 429"@,
        ),
    }
}

/// Determine whether a failed request is worth retrying.
pub fn is_retryable(err: &RequestFailure) -> (r: bool)
    ensures
        r == retryable(*err),
{
    match err {
        RequestFailure::Transport { is_connect, is_timeout, is_request, status } => {
            if *is_connect || *is_timeout || *is_request {
                return true;
            }
            match status {
                Some(s) => (500 <= *s && *s <= 599) || *s == 429,
                None => true,
            }
        },
        RequestFailure::Other { message } => {
            let v = chars_of(message.as_str());
            let p5 = chars_of("error 5");
            let p429 = chars_of("error 429");
            let a = find_seq(&v, &p5);
            let b = find_seq(&v, &p429);
            proof {
                crate::text::lemma_find_bounds(v@, p5@);
                crate::text::lemma_find_bounds(v@, p429@);
            }
            a.is_some() || b.is_some()
        },
    }
}

/// The `Retry-After` delay in seconds, from the header's value.
pub fn retry_after_secs(header: Option<&str>) -> (r: Option<u64>)
    ensures
        r == match header {
            Some(h) => parse_u64(h@),
            None => None,
        },
{
    match header {
        Some(h) => {
            let v = chars_of(h);
            proof {
                assert(v@.subrange(0, v@.len() as int) =~= v@);
            }
            parse_u64_range(&v, 0, v.len())
        },
        None => None,
    }
}

/// The next page to fetch after a page of `count` comments whose `Link`
/// header was `link_header`: none once a page comes back empty.
pub fn next_page_url(link_header: Option<&str>, count: usize) -> (r: Option<String>)
    ensures
        opt_view(r) == if count > 0 {
            match link_header {
                Some(h) => first_next_url(split_char(h@, ',')),
                None => None,
            }
        } else {
            None
        },
{
    if count == 0 {
        return None;
    }
    match link_header {
        Some(h) => parse_next_link(h),
        None => None,
    }
}

/// The REST API's base URL.
pub const API_BASE: &'static str = "https://api.github.com";

/// Maximum number of pages fetched when paginating (10,000 comments at 100
/// per page).
pub const MAX_PAGES: usize = 100;

/// The URL of the issue comments of `repo`.
pub fn comments_url(repo: &str) -> (r: String)
    ensures
        r@ == "https://api.github.com/repos/"@ + repo@ + "/issues/comments"@,
{
    let mut s = String::new();
    push_str(&mut s, "https://api.github.com/repos/");
    push_str(&mut s, repo);
    push_str(&mut s, "/issues/comments");
    s
}

/// The URL that posts a comment on issue or PR `pr_number` of `repo`.
pub fn issue_comments_url(repo: &str, pr_number: i64) -> (r: String)
    ensures
        r@ == "https://api.github.com/repos/"@ + repo@ + "/issues/"@ + int_dec(pr_number as int)
            + "/comments"@,
{
    let n = i64_to_string(pr_number);
    let mut s = String::new();
    push_str(&mut s, "https://api.github.com/repos/");
    push_str(&mut s, repo);
    push_str(&mut s, "/issues/");
    push_str(&mut s, n.as_str());
    push_str(&mut s, "/comments");
    s
}

/// The URL of pull request `pr_number` of `repo`.
pub fn pull_url(repo: &str, pr_number: i64) -> (r: String)
    ensures
        r@ == "https://api.github.com/repos/"@ + repo@ + "/pulls/"@ + int_dec(pr_number as int),
{
    let n = i64_to_string(pr_number);
    let mut s = String::new();
    push_str(&mut s, "https://api.github.com/repos/");
    push_str(&mut s, repo);
    push_str(&mut s, "/pulls/");
    push_str(&mut s, n.as_str());
    s
}

/// The URL that adds a reaction to comment `comment_id` of `repo`.
pub fn reactions_url(repo: &str, comment_id: i64) -> (r: String)
    ensures
        r@ == "https://api.github.com/repos/"@ + repo@ + "/issues/comments/"@ + int_dec(
            comment_id as int,
        ) + "/reactions"@,
{
    let n = i64_to_string(comment_id);
    let mut s = String::new();
    push_str(&mut s, "https://api.github.com/repos/");
    push_str(&mut s, repo);
    push_str(&mut s, "/issues/comments/");
    push_str(&mut s, n.as_str());
    push_str(&mut s, "/reactions");
    s
}

/// The error for a non-2xx response to a `context` (`GET` or `POST`)
/// request: `status` is the status as text (such as `404 Not Found`).
/// A 5xx or 429 status makes the error retryable by its message.
pub fn api_error_message(context: &str, status: &str, body: &str) -> (r: String)
    ensures
        r@ == "GitHub API "@ + context@ + " error "@ + status@ + ": "@ + body@,
{
    let mut s = String::new();
    push_str(&mut s, "GitHub API ");
    push_str(&mut s, context);
    push_str(&mut s, " error ");
    push_str(&mut s, status);
    push_str(&mut s, ": ");
    push_str(&mut s, body);
    s
}

/// The page to fetch after page `page` (counting from 0) of `count`
/// comments whose `Link` header was `link_header`: none after an empty
/// page, without a next link, or once [`MAX_PAGES`] pages were fetched.
pub fn following_page(page: usize, link_header: Option<&str>, count: usize) -> (r: Option<String>)
    ensures
        opt_view(r) == if page + 1 >= MAX_PAGES as int {
            None
        } else if count > 0 {
            match link_header {
                Some(h) => first_next_url(split_char(h@, ',')),
                None => None,
            }
        } else {
            None
        },
{
    if page >= MAX_PAGES - 1 {
        return None;
    }
    next_page_url(link_header, count)
}

/// The error message of a non-2xx response.
pub open spec fn api_error_text(context: Seq<char>, status: Seq<char>, body: Seq<char>) -> Seq<char> {
    "GitHub API "@ + context + " error "@ + status + ": "@ + body
}

/// A response whose status is 5xx or 429 gives an error message that is
/// retried.
pub proof fn lemma_status_errors_retryable(context: Seq<char>, status: Seq<char>, body: Seq<char>)
    requires
        (status.len() > 0 && status[0] == '5') || (status.len() >= 3 && status.take(3) == "429"@),
    ensures
        contains_seq(api_error_text(context, status, body), "error 5"@) || contains_seq(
            api_error_text(context, status, body),
            "error 429"@,
        ),
{
    reveal_strlit("GitHub API ");
    reveal_strlit(" error ");
    reveal_strlit(": ");
    reveal_strlit("error 5");
    reveal_strlit("error 429");
    reveal_strlit("429");
    let m = api_error_text(context, status, body);
    let pre = "GitHub API "@ + context + " error "@;
    let i: int = pre.len() - 6;
    assert(m =~= pre + (status + ": "@ + body));
    assert(pre.subrange(i, pre.len() as int) =~= " error "@.skip(1));
    if status[0] == '5' {
        assert(m.subrange(i, i + 7) =~= pre.subrange(i, pre.len() as int) + status.take(1));
        assert(" error "@.skip(1) + status.take(1) =~= "error 5"@);
        assert(occurs_at(m, "error 5"@, i));
    } else {
        assert(m.subrange(i, i + 9) =~= pre.subrange(i, pre.len() as int) + status.take(3));
        assert(" error "@.skip(1) + status.take(3) =~= "error 429"@);
        assert(occurs_at(m, "error 429"@, i));
    }
}

} // verus!
