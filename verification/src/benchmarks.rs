//! Benchmark trigger detection and per-repo allowlists.
//!
//! Parses PR comment bodies for "run benchmark ..." trigger phrases,
//! validates benchmark names against repo-specific allowlists, and
//! classifies them by [`JobType`].

use vstd::prelude::*;

use crate::config::{RepoEntry, RepoEntryView};
use crate::models::{bind_all, keys_distinct, pair_views, BenchmarkRequest, EnvVars, JobType};
use crate::text::{
    ascii_lower, chars_of, contains_str, eq_ignore_ascii_case, first_index_in, first_index_of,
    first_line, join, join_strings,
    line_ranges, lines, push_str, range_eq_ignore_ascii_case, range_starts_with, range_texts,
    sort_lex, sorted_strs, split_ws, starts_with, str_eq, str_views, string_of_range,
    strings_of_ranges, to_ascii_lower, trim, trim_bounds, views, word_ranges,
};
use crate::yaml::{
    config_sections, empty_sections, opt_view, sections_from_config, CommentConfig, Sections,
    SectionsView,
};

verus! {

// ─────────────────────────── classification ───────────────────────────

/// The job type of a benchmark name, if the repo allows it.
pub open spec fn classify(r: RepoEntryView, name: Seq<char>) -> Option<JobType> {
    if r.standard.contains(name) {
        Some(JobType::Standard)
    } else if r.criterion.contains(name) {
        if r.criterion_type == "arrow"@ {
            Some(JobType::ArrowCriterion)
        } else {
            Some(JobType::Criterion)
        }
    } else {
        None
    }
}

impl RepoEntry {
    /// Determine the [`JobType`] for a benchmark name, or `None` if not recognized.
    pub fn classify_benchmark(&self, name: &str) -> (r: Option<JobType>)
        ensures
            r == classify(self@, name@),
    {
        if contains_str(&self.standard, name) {
            Some(JobType::Standard)
        } else if contains_str(&self.criterion, name) {
            if str_eq(self.criterion_type.as_str(), "arrow") {
                Some(JobType::ArrowCriterion)
            } else {
                Some(JobType::Criterion)
            }
        } else {
            None
        }
    }
}

// ──────────────────────────── trigger line ────────────────────────────

/// The trigger phrase: `run benchmark(s) [name1 name2 ...]`, any case.
pub const TRIGGER_PATTERN: &'static str = r"(?i)^\s*run\s+(benchmarks?)(?:\s+([a-zA-Z0-9_\-\s]+?))?\s*$";

/// What `regex::Regex::new(pattern)` followed by `captures(text)` yields:
/// `None` when the pattern does not compile or does not match, otherwise
/// the text of every capture group (group 0 first), `None` for a group that
/// took no part in the match.
pub uninterp spec fn regex_captures_of(pattern: Seq<char>, text: Seq<char>) -> Option<
    Seq<Option<Seq<char>>>,
>;

pub open spec fn captures_view(c: Option<Vec<Option<String>>>) -> Option<Seq<Option<Seq<char>>>> {
    match c {
        Some(v) => Some(v@.map_values(|g: Option<String>| opt_view(g))),
        None => None,
    }
}

/// Runs a regular expression with the `regex` crate and returns its capture
/// groups. The contract only names the result ([`regex_captures_of`]); what
/// the pattern matches is left to `regex`.
#[verifier::external_body]
fn regex_captures(pattern: &str, text: &str) -> (r: Option<Vec<Option<String>>>)
    ensures
        captures_view(r) == regex_captures_of(pattern@, text@),
{
    let re = regex::Regex::new(pattern).ok()?;
    let caps = re.captures(text)?;
    Some(caps.iter().map(|m| m.map(|m| m.as_str().to_string())).collect())
}

/// Result of parsing the trigger line.
#[derive(Debug)]
pub enum TriggerKind {
    /// Specific benchmark names were given.
    Named(Vec<String>),
    /// `run benchmarks` (plural) with no names: default suite.
    DefaultSuite,
    /// `run benchmark` (singular) with no names: error.
    SingularNoNames,
}

pub enum TriggerKindView {
    Named(Seq<Seq<char>>),
    DefaultSuite,
    SingularNoNames,
}

impl View for TriggerKind {
    type V = TriggerKindView;

    open spec fn view(&self) -> TriggerKindView {
        match self {
            TriggerKind::Named(v) => TriggerKindView::Named(views(v@)),
            TriggerKind::DefaultSuite => TriggerKindView::DefaultSuite,
            TriggerKind::SingularNoNames => TriggerKindView::SingularNoNames,
        }
    }
}

pub open spec fn opt_kind_view(k: Option<TriggerKind>) -> Option<TriggerKindView> {
    match k {
        Some(x) => Some(x@),
        None => None,
    }
}

/// Group `i` of a capture list, if present.
pub open spec fn group(g: Seq<Option<Seq<char>>>, i: int) -> Option<Seq<char>> {
    if 0 <= i < g.len() {
        g[i]
    } else {
        None
    }
}

/// The trigger kind that capture groups of [`TRIGGER_PATTERN`] describe:
/// group 1 is the word `benchmark`/`benchmarks`, group 2 the names.
pub open spec fn trigger_kind_of(caps: Option<Seq<Option<Seq<char>>>>) -> Option<TriggerKindView> {
    match caps {
        None => None,
        Some(g) => {
            let plural = match group(g, 1) {
                Some(w) => w.len() > 0 && (w.last() == 's' || w.last() == 'S'),
                None => false,
            };
            let names = match group(g, 2) {
                Some(n) => split_ws(n),
                None => seq![],
            };
            if names.len() > 0 {
                Some(TriggerKindView::Named(names))
            } else if plural {
                Some(TriggerKindView::DefaultSuite)
            } else {
                Some(TriggerKindView::SingularNoNames)
            }
        },
    }
}

/// What a trigger line means.
pub open spec fn trigger_of(line: Seq<char>) -> Option<TriggerKindView> {
    trigger_kind_of(regex_captures_of(TRIGGER_PATTERN@, line))
}

fn group_at(g: &Vec<Option<String>>, i: usize) -> (r: Option<&String>)
    ensures
        opt_view(
            match r {
                Some(s) => Some(*s),
                None => None,
            },
        ) == group(g@.map_values(|x: Option<String>| opt_view(x)), i as int),
{
    if i < g.len() {
        match &g[i] {
            Some(s) => Some(s),
            None => None,
        }
    } else {
        None
    }
}

/// Turns the capture groups of [`TRIGGER_PATTERN`] into a trigger kind.
pub fn trigger_kind_from_captures(caps: &Option<Vec<Option<String>>>) -> (r: Option<TriggerKind>)
    ensures
        opt_kind_view(r) == trigger_kind_of(captures_view(*caps)),
{
    match caps {
        None => None,
        Some(g) => {
            let ghost gv = g@.map_values(|x: Option<String>| opt_view(x));
            let plural = match group_at(g, 1) {
                Some(w) => {
                    let c = chars_of(w.as_str());
                    c.len() > 0 && (c[c.len() - 1] == 's' || c[c.len() - 1] == 'S')
                },
                None => false,
            };
            let names: Vec<String> = match group_at(g, 2) {
                Some(n) => {
                    let c = chars_of(n.as_str());
                    let r = word_ranges(&c, 0, c.len());
                    proof {
                        assert(c@.subrange(0, c@.len() as int) =~= c@);
                    }
                    let out = strings_of_ranges(&c, &r);
                    proof {
                        assert(views(out@) =~= range_texts(c@, r@));
                    }
                    out
                },
                None => {
                    let v: Vec<String> = Vec::new();
                    proof {
                        assert(views(v@) =~= Seq::<Seq<char>>::empty());
                    }
                    v
                },
            };
            if names.len() > 0 {
                Some(TriggerKind::Named(names))
            } else if plural {
                Some(TriggerKind::DefaultSuite)
            } else {
                Some(TriggerKind::SingularNoNames)
            }
        },
    }
}

/// Parse the trigger line. Returns `None` if it doesn't match the trigger
/// pattern at all.
pub fn parse_trigger(trigger: &str) -> (r: Option<TriggerKind>)
    ensures
        opt_kind_view(r) == trigger_of(trigger@),
{
    let caps = regex_captures(TRIGGER_PATTERN, trigger);
    trigger_kind_from_captures(&caps)
}

// ─────────────────────────── configuration block ──────────────────────

/// A code-fence line (` ``` ` or ` ```yaml `), which is skipped.
pub open spec fn is_fence(l: Seq<char>) -> bool {
    starts_with(trim(l), "```"@)
}

/// A character of an environment variable name: an ASCII letter or digit,
/// or `_`.
pub open spec fn is_key_char(c: char) -> bool {
    ('A' <= c && c <= 'Z') || ('a' <= c && c <= 'z') || ('0' <= c && c <= '9') || c == '_'
}

/// A `KEY=VALUE` line: a name of [`is_key_char`] characters from the start
/// of the line up to its first `=`, then the value, trimmed.
pub open spec fn env_line(l: Seq<char>) -> Option<(Seq<char>, Seq<char>)> {
    let i = first_index_of(l, '=');
    if i > 0 && forall|k: int| 0 <= k < i ==> is_key_char(#[trigger] l[k]) {
        Some((l.take(i), trim(l.skip(i + 1))))
    } else {
        None
    }
}

/// The `KEY=VALUE` lines after the trigger, in order.
pub open spec fn env_lines(extra: Seq<Seq<char>>) -> Seq<(Seq<char>, Seq<char>)>
    decreases extra.len(),
{
    if extra.len() == 0 {
        seq![]
    } else {
        let r = env_lines(extra.drop_last());
        match env_line(extra.last()) {
            Some(p) => r.push(p),
            None => r,
        }
    }
}

/// The lines after the trigger that hold YAML: neither a code fence nor a
/// `KEY=VALUE` line.
pub open spec fn config_lines(extra: Seq<Seq<char>>) -> Seq<Seq<char>>
    decreases extra.len(),
{
    if extra.len() == 0 {
        seq![]
    } else {
        let r = config_lines(extra.drop_last());
        if is_fence(extra.last()) || env_line(extra.last()) is Some {
            r
        } else {
            r.push(extra.last())
        }
    }
}

/// The YAML text of the configuration block.
pub open spec fn config_text(extra: Seq<Seq<char>>) -> Seq<char> {
    join(config_lines(extra), "\n"@)
}

pub open spec fn invalid_configuration(e: Seq<char>) -> Seq<char> {
    "invalid configuration: "@ + e
}

/// The configuration of the YAML lines alone, given `parsed`, what the
/// YAML text parses to (the parse error's message on failure). An empty
/// YAML text means no configuration, whatever `parsed` holds.
pub open spec fn yaml_sections(extra: Seq<Seq<char>>, parsed: Result<CommentConfig, String>) -> Result<
    SectionsView,
    Seq<char>,
> {
    if trim(config_text(extra)).len() == 0 {
        Ok(empty_sections())
    } else {
        match parsed {
            Ok(c) => Ok(config_sections(c)),
            Err(e) => Err(invalid_configuration(e@)),
        }
    }
}

/// The configuration given by the lines after the trigger, or the message
/// explaining why it is rejected: each `KEY=VALUE` line sets a shared
/// variable (after the YAML's `env`, so a line wins), and the other lines
/// are read as the YAML block.
pub open spec fn sections_spec(extra: Seq<Seq<char>>, parsed: Result<CommentConfig, String>) -> Result<
    SectionsView,
    Seq<char>,
> {
    match yaml_sections(extra, parsed) {
        Err(e) => Err(e),
        Ok(s) => Ok(
            SectionsView {
                shared_env: bind_all(s.shared_env, env_lines(extra)),
                baseline_env: s.baseline_env,
                changed_env: s.changed_env,
                baseline_ref: s.baseline_ref,
                changed_ref: s.changed_ref,
            },
        ),
    }
}

fn is_key_char_exec(c: char) -> (r: bool)
    ensures
        r == is_key_char(c),
{
    ('A' <= c && c <= 'Z') || ('a' <= c && c <= 'z') || ('0' <= c && c <= '9') || c == '_'
}

/// Reads `v[a..b]` as a `KEY=VALUE` line.
fn env_line_exec(v: &Vec<char>, a: usize, b: usize) -> (r: Option<(String, String)>)
    requires
        a <= b <= v@.len(),
    ensures
        match r {
            Some(p) => env_line(v@.subrange(a as int, b as int)) == Some((p.0@, p.1@)),
            None => env_line(v@.subrange(a as int, b as int)) is None,
        },
{
    let ghost l = v@.subrange(a as int, b as int);
    let i = match first_index_in(v, a, b, '=') {
        Some(i) => i,
        None => {
            return None;
        },
    };
    if i == a {
        return None;
    }
    let mut k = a;
    while k < i
        invariant
            a <= k <= i < b <= v@.len(),
            l == v@.subrange(a as int, b as int),
            first_index_of(l, '=') == i - a,
            forall|j: int| a <= j < k ==> is_key_char(#[trigger] v@[j]),
        decreases i - k,
    {
        if !is_key_char_exec(v[k]) {
            proof {
                assert(l[k - a] == v@[k as int]);
            }
            return None;
        }
        k = k + 1;
    }
    let key = string_of_range(v, a, i);
    let (ta, tb) = trim_bounds(v, i + 1, b);
    let val = string_of_range(v, ta, tb);
    proof {
        assert forall|j: int| 0 <= j < i - a implies is_key_char(#[trigger] l[j]) by {
            assert(l[j] == v@[a + j]);
        }
        assert(l.take(i - a) =~= v@.subrange(a as int, i as int));
        assert(l.skip(i - a + 1) =~= v@.subrange(i + 1, b as int));
    }
    Some((key, val))
}

fn invalid_configuration_exec(e: &str) -> (r: String)
    ensures
        r@ == invalid_configuration(e@),
{
    let mut s = String::new();
    push_str(&mut s, "invalid configuration: ");
    push_str(&mut s, e);
    proof {
        assert(s@ =~= invalid_configuration(e@));
    }
    s
}

/// The YAML text among `ranges[1..]` of `v`.
fn yaml_text_exec(v: &Vec<char>, ranges: &Vec<(usize, usize)>) -> (r: String)
    requires
        ranges@.len() >= 1,
        crate::text::ranges_within(ranges@, 0, v@.len() as int),
    ensures
        r@ == config_text(range_texts(v@, ranges@).skip(1)),
{
    let ghost extra = range_texts(v@, ranges@).skip(1);
    let fence = chars_of("```");
    let mut yaml = String::new();
    let mut any = false;
    let mut k: usize = 1;
    proof {
        assert(extra.take(0) =~= Seq::<Seq<char>>::empty());
        assert(yaml@ =~= join(config_lines(extra.take(0)), "\n"@));
    }
    while k < ranges.len()
        invariant
            1 <= k <= ranges@.len(),
            crate::text::ranges_within(ranges@, 0, v@.len() as int),
            extra == range_texts(v@, ranges@).skip(1),
            fence@ == "```"@,
            any == (config_lines(extra.take(k - 1)).len() > 0),
            yaml@ == join(config_lines(extra.take(k - 1)), "\n"@),
        decreases ranges@.len() - k,
    {
        let (a, b) = ranges[k];
        proof {
            assert(0 <= ranges@[k as int].0 <= ranges@[k as int].1 <= v@.len());
        }
        let (ta, tb) = trim_bounds(v, a, b);
        let fenced = range_starts_with(v, ta, tb, &fence);
        let assignment = env_line_exec(v, a, b);
        let ghost line = v@.subrange(a as int, b as int);
        proof {
            assert(extra[k - 1] == line);
            assert(extra.take(k as int).drop_last() =~= extra.take(k - 1));
            assert(extra.take(k as int).last() == line);
        }
        if !fenced && assignment.is_none() {
            let ghost before = config_lines(extra.take(k - 1));
            if any {
                push_str(&mut yaml, "\n");
            }
            crate::text::push_range(&mut yaml, v, a, b);
            proof {
                let after = before.push(line);
                assert(after.drop_last() =~= before);
                if !any {
                    assert(before =~= Seq::<Seq<char>>::empty());
                    assert(yaml@ =~= line);
                }
            }
            any = true;
        }
        k = k + 1;
    }
    proof {
        assert(extra.take(ranges@.len() - 1) =~= extra);
    }
    yaml
}

/// Whether `s` is blank.
fn is_blank_text(s: &str) -> (r: bool)
    ensures
        r == (trim(s@).len() == 0),
{
    let v = chars_of(s);
    let (a, b) = trim_bounds(&v, 0, v.len());
    proof {
        assert(v@.subrange(0, v@.len() as int) =~= v@);
    }
    a == b
}

/// The configuration of the YAML lines among `ranges[1..]` of `v`, given
/// what their text parses to.
fn parse_yaml_lines(v: &Vec<char>, ranges: &Vec<(usize, usize)>, parsed: &Result<CommentConfig, String>) -> (r:
    Result<Sections, String>)
    requires
        ranges@.len() >= 1,
        crate::text::ranges_within(ranges@, 0, v@.len() as int),
    ensures
        match r {
            Ok(s) => yaml_sections(range_texts(v@, ranges@).skip(1), *parsed) == Ok::<_, Seq<char>>(
                s.view(),
            ) && s.wf(),
            Err(e) => yaml_sections(range_texts(v@, ranges@).skip(1), *parsed) == Err::<
                SectionsView,
                _,
            >(e@),
        },
{
    let yaml = yaml_text_exec(v, ranges);
    if is_blank_text(yaml.as_str()) {
        return Ok(Sections::empty());
    }
    match parsed {
        Ok(c) => Ok(sections_from_config(c)),
        Err(e) => Err(invalid_configuration_exec(e.as_str())),
    }
}

/// The `KEY=VALUE` lines among `ranges[1..]` of `v`, in order.
fn parse_env_lines(v: &Vec<char>, ranges: &Vec<(usize, usize)>) -> (r: Vec<(String, String)>)
    requires
        ranges@.len() >= 1,
        crate::text::ranges_within(ranges@, 0, v@.len() as int),
    ensures
        pair_views(r@) == env_lines(range_texts(v@, ranges@).skip(1)),
{
    let ghost extra = range_texts(v@, ranges@).skip(1);
    let mut out: Vec<(String, String)> = Vec::new();
    let mut k: usize = 1;
    proof {
        assert(extra.take(0) =~= Seq::<Seq<char>>::empty());
        assert(pair_views(out@) =~= env_lines(extra.take(0)));
    }
    while k < ranges.len()
        invariant
            1 <= k <= ranges@.len(),
            crate::text::ranges_within(ranges@, 0, v@.len() as int),
            extra == range_texts(v@, ranges@).skip(1),
            pair_views(out@) == env_lines(extra.take(k - 1)),
        decreases ranges@.len() - k,
    {
        let (a, b) = ranges[k];
        proof {
            assert(0 <= ranges@[k as int].0 <= ranges@[k as int].1 <= v@.len());
        }
        let ghost line = v@.subrange(a as int, b as int);
        proof {
            assert(extra[k - 1] == line);
            assert(extra.take(k as int).drop_last() =~= extra.take(k - 1));
            assert(extra.take(k as int).last() == line);
        }
        match env_line_exec(v, a, b) {
            Some(p) => {
                let ghost before = out@;
                out.push(p);
                proof {
                    assert(pair_views(out@) =~= pair_views(before).push((p.0@, p.1@)));
                }
            },
            None => {},
        }
        k = k + 1;
    }
    proof {
        assert(extra.take(ranges@.len() - 1) =~= extra);
    }
    out
}

/// Parse the lines `ranges[1..]` of `v` (the lines after the trigger) into
/// structured env vars and refs. `KEY=VALUE` lines set shared variables;
/// the rest is YAML, with an optional ` ```yaml ` / ` ``` ` fence around it
/// ignored.
fn parse_sections(v: &Vec<char>, ranges: &Vec<(usize, usize)>, parsed: &Result<CommentConfig, String>) -> (r:
    Result<Sections, String>)
    requires
        ranges@.len() >= 1,
        crate::text::ranges_within(ranges@, 0, v@.len() as int),
    ensures
        match r {
            Ok(s) => sections_spec(range_texts(v@, ranges@).skip(1), *parsed) == Ok::<_, Seq<char>>(
                s.view(),
            ) && s.wf(),
            Err(e) => sections_spec(range_texts(v@, ranges@).skip(1), *parsed) == Err::<
                SectionsView,
                _,
            >(e@),
        },
{
    let ghost extra = range_texts(v@, ranges@).skip(1);
    let mut s = match parse_yaml_lines(v, ranges, parsed) {
        Ok(s) => s,
        Err(e) => {
            return Err(e);
        },
    };
    let assignments = parse_env_lines(v, ranges);
    let ghost base = s.view();
    let ghost all = pair_views(assignments@);
    let mut j: usize = 0;
    proof {
        assert(all.take(0) =~= Seq::<(Seq<char>, Seq<char>)>::empty());
    }
    while j < assignments.len()
        invariant
            0 <= j <= assignments@.len(),
            all == pair_views(assignments@),
            all == env_lines(extra),
            s.wf(),
            s.shared_env@ == bind_all(base.shared_env, all.take(j as int)),
            s.baseline_env@ == base.baseline_env,
            s.changed_env@ == base.changed_env,
            opt_view(s.baseline_ref) == base.baseline_ref,
            opt_view(s.changed_ref) == base.changed_ref,
        decreases assignments@.len() - j,
    {
        let key = assignments[j].0.clone();
        let val = assignments[j].1.clone();
        proof {
            assert(all.take(j + 1).drop_last() =~= all.take(j as int));
            assert(all.take(j + 1).last() == all[j as int]);
            assert(all[j as int] == (assignments@[j as int].0@, assignments@[j as int].1@));
        }
        s.shared_env.insert(key, val);
        j = j + 1;
    }
    proof {
        assert(all.take(assignments@.len() as int) =~= all);
    }
    Ok(s)
}

// ────────────────────────────── detection ─────────────────────────────

/// The mathematical form of a [`BenchmarkRequest`].
pub struct RequestView {
    pub benchmarks: Seq<Seq<char>>,
    pub env_vars: Seq<(Seq<char>, Seq<char>)>,
    pub baseline_env_vars: Seq<(Seq<char>, Seq<char>)>,
    pub changed_env_vars: Seq<(Seq<char>, Seq<char>)>,
    pub baseline_ref: Option<Seq<char>>,
    pub changed_ref: Option<Seq<char>>,
}

pub open spec fn request_view(r: BenchmarkRequest) -> RequestView {
    RequestView {
        benchmarks: views(r.benchmarks@),
        env_vars: r.env_vars@,
        baseline_env_vars: r.baseline_env_vars@,
        changed_env_vars: r.changed_env_vars@,
        baseline_ref: opt_view(r.baseline_ref),
        changed_ref: opt_view(r.changed_ref),
    }
}

/// Each environment map of the request binds a key at most once.
pub open spec fn request_wf(r: BenchmarkRequest) -> bool {
    &&& keys_distinct(r.env_vars@)
    &&& keys_distinct(r.baseline_env_vars@)
    &&& keys_distinct(r.changed_env_vars@)
}

pub open spec fn request_of(names: Seq<Seq<char>>, s: SectionsView) -> RequestView {
    RequestView {
        benchmarks: names,
        env_vars: s.shared_env,
        baseline_env_vars: s.baseline_env,
        changed_env_vars: s.changed_env,
        baseline_ref: s.baseline_ref,
        changed_ref: s.changed_ref,
    }
}

/// Result of [`detect_benchmark`].
#[derive(Debug)]
pub enum DetectResult {
    /// Successfully parsed trigger and config.
    Parsed(BenchmarkRequest),
    /// Trigger matched but its configuration lines had errors.
    ConfigError(String),
    /// Not a trigger at all.
    NoTrigger,
}

pub enum DetectView {
    Parsed(RequestView),
    ConfigError(Seq<char>),
    NotTriggered,
}

pub open spec fn detect_view(d: DetectResult) -> DetectView {
    match d {
        DetectResult::Parsed(r) => DetectView::Parsed(request_view(r)),
        DetectResult::ConfigError(e) => DetectView::ConfigError(e@),
        DetectResult::NoTrigger => DetectView::NotTriggered,
    }
}

/// Every name is allowed by the repo (as a standard or criterion benchmark).
pub open spec fn names_valid(r: RepoEntryView, names: Seq<Seq<char>>) -> bool {
    forall|i: int|
        0 <= i < names.len() ==> r.standard.contains(#[trigger] names[i]) || r.criterion.contains(
            names[i],
        )
}

/// What a comment body asks for.
///
/// `parsed` is what the YAML block ([`config_block_of`]) parses to; it is
/// read only when the body has such a block.
pub open spec fn detect_spec(r: RepoEntryView, body: Seq<char>, parsed: Result<CommentConfig, String>) -> DetectView {
    let ls = lines(trim(body));
    if ls.len() == 0 {
        DetectView::NotTriggered
    } else {
        match trigger_of(ls[0]) {
            None => DetectView::NotTriggered,
            Some(kind) => match sections_spec(ls.skip(1), parsed) {
                Err(e) => DetectView::ConfigError(e),
                Ok(sec) => match kind {
                    TriggerKindView::DefaultSuite => DetectView::Parsed(request_of(seq![], sec)),
                    TriggerKindView::Named(names) => if names.len() > 0 && names_valid(r, names) {
                        DetectView::Parsed(request_of(names, sec))
                    } else {
                        DetectView::NotTriggered
                    },
                    TriggerKindView::SingularNoNames => DetectView::NotTriggered,
                },
            },
        }
    }
}

/// The YAML block of a trigger comment: the lines after the trigger that
/// are neither code fences nor `KEY=VALUE` lines, joined with newlines;
/// `None` when the body is no trigger or the block is blank.
pub open spec fn config_block_of(body: Seq<char>) -> Option<Seq<char>> {
    let ls = lines(trim(body));
    if ls.len() == 0 || trigger_of(ls[0]) is None {
        None
    } else if trim(config_text(ls.skip(1))).len() == 0 {
        None
    } else {
        Some(config_text(ls.skip(1)))
    }
}

/// The YAML text that a trigger comment carries, for the caller to parse
/// into a [`CommentConfig`] and hand to [`detect_benchmark`].
pub fn config_block(body: &str) -> (r: Option<String>)
    ensures
        opt_view(r) == config_block_of(body@),
{
    let v = chars_of(body);
    let (a, b) = trim_bounds(&v, 0, v.len());
    proof {
        assert(v@.subrange(0, v@.len() as int) =~= v@);
    }
    let ranges = line_ranges(&v, a, b);
    let ghost ls = lines(trim(body@));
    proof {
        assert(range_texts(v@, ranges@) == ls);
        assert(crate::text::ranges_within(ranges@, 0, v@.len() as int));
    }
    if ranges.len() == 0 {
        return None;
    }
    let trigger = string_of_range(&v, ranges[0].0, ranges[0].1);
    proof {
        assert(ls[0] == trigger@);
    }
    if parse_trigger(trigger.as_str()).is_none() {
        return None;
    }
    let yaml = yaml_text_exec(&v, &ranges);
    if is_blank_text(yaml.as_str()) {
        None
    } else {
        Some(yaml)
    }
}

fn all_valid(repo_entry: &RepoEntry, names: &Vec<String>) -> (r: bool)
    ensures
        r == names_valid(repo_entry@, views(names@)),
{
    let mut k: usize = 0;
    while k < names.len()
        invariant
            0 <= k <= names@.len(),
            forall|i: int|
                0 <= i < k ==> repo_entry@.standard.contains(#[trigger] views(names@)[i])
                    || repo_entry@.criterion.contains(views(names@)[i]),
        decreases names@.len() - k,
    {
        let n = names[k].as_str();
        if !contains_str(&repo_entry.standard, n) && !contains_str(&repo_entry.criterion, n) {
            proof {
                assert(views(names@)[k as int] == names@[k as int]@);
            }
            return false;
        }
        k = k + 1;
    }
    true
}

/// Parse a PR comment body into a [`BenchmarkRequest`] if it matches a
/// trigger pattern.
///
/// Recognizes `run benchmarks` (default suite), `run benchmarks <names>`,
/// and `run benchmark <names>`. `run benchmark` without names, a name the
/// repo does not allow, or a body that is no trigger at all give `None`;
/// a trigger followed by an invalid configuration block gives
/// `ConfigError`. The lines after the trigger are `KEY=VALUE` lines, each
/// setting a shared variable, and a YAML block (see [`sections_spec`]);
/// `parsed` is what that block ([`config_block`]) parses to, and is not
/// read when there is no block.
pub fn detect_benchmark(repo_entry: &RepoEntry, body: &str, parsed: &Result<CommentConfig, String>) -> (r:
    DetectResult)
    ensures
        detect_view(r) == detect_spec(repo_entry@, body@, *parsed),
        r matches DetectResult::Parsed(req) ==> request_wf(req),
{
    let v = chars_of(body);
    let (a, b) = trim_bounds(&v, 0, v.len());
    proof {
        assert(v@.subrange(0, v@.len() as int) =~= v@);
    }
    let ranges = line_ranges(&v, a, b);
    let ghost ls = lines(trim(body@));
    proof {
        assert(range_texts(v@, ranges@) == ls);
        assert(crate::text::ranges_within(ranges@, 0, v@.len() as int));
    }
    if ranges.len() == 0 {
        return DetectResult::NoTrigger;
    }
    let trigger = string_of_range(&v, ranges[0].0, ranges[0].1);
    proof {
        assert(ls[0] == trigger@);
    }
    let kind = match parse_trigger(trigger.as_str()) {
        Some(k) => k,
        None => {
            return DetectResult::NoTrigger;
        },
    };
    let sections = match parse_sections(&v, &ranges, parsed) {
        Ok(s) => s,
        Err(e) => {
            return DetectResult::ConfigError(e);
        },
    };
    match kind {
        TriggerKind::DefaultSuite => {
            let benchmarks: Vec<String> = Vec::new();
            proof {
                assert(views(benchmarks@) =~= Seq::<Seq<char>>::empty());
            }
            DetectResult::Parsed(
                BenchmarkRequest {
                    benchmarks,
                    env_vars: sections.shared_env,
                    baseline_env_vars: sections.baseline_env,
                    changed_env_vars: sections.changed_env,
                    baseline_ref: sections.baseline_ref,
                    changed_ref: sections.changed_ref,
                },
            )
        },
        TriggerKind::Named(names) => {
            if names.len() == 0 {
                return DetectResult::NoTrigger;
            }
            if all_valid(repo_entry, &names) {
                DetectResult::Parsed(
                    BenchmarkRequest {
                        benchmarks: names,
                        env_vars: sections.shared_env,
                        baseline_env_vars: sections.baseline_env,
                        changed_env_vars: sections.changed_env,
                        baseline_ref: sections.baseline_ref,
                        changed_ref: sections.changed_ref,
                    },
                )
            } else {
                DetectResult::NoTrigger
            }
        },
        TriggerKind::SingularNoNames => DetectResult::NoTrigger,
    }
}


// ──────────────────────── quick trigger checks ────────────────────────

/// `c` lowercases (`char::to_lowercase`) to the single character `t`, for
/// `t` an ASCII lowercase letter or a space. Besides `t` and its uppercase
/// form, only the Kelvin sign lowercases to an ASCII letter (`k`).
pub open spec fn lowers_to(c: char, t: char) -> bool {
    ascii_lower(c) == t || (t == 'k' && c as u32 == 0x212A)
}

/// `s.to_lowercase().starts_with(p)` for a prefix `p` of ASCII lowercase
/// letters and spaces.
pub open spec fn lower_starts_with(s: Seq<char>, p: Seq<char>) -> bool {
    p.len() <= s.len() && forall|i: int| 0 <= i < p.len() ==> lowers_to(s[i], p[i])
}

/// The first line of the trimmed body.
pub open spec fn trigger_line(body: Seq<char>) -> Seq<char> {
    first_line(trim(body))
}

/// Bounds of the first line of `trim(v)`.
pub(crate) fn first_line_bounds(v: &Vec<char>) -> (r: (usize, usize))
    ensures
        r.0 <= r.1 <= v@.len(),
        v@.subrange(r.0 as int, r.1 as int) == trigger_line(v@),
{
    let (a, b) = trim_bounds(v, 0, v.len());
    proof {
        assert(v@.subrange(0, v@.len() as int) =~= v@);
    }
    let ranges = line_ranges(v, a, b);
    if ranges.len() == 0 {
        proof {
            assert(v@.subrange(a as int, a as int) =~= Seq::<char>::empty());
        }
        (a, a)
    } else {
        proof {
            assert(range_texts(v@, ranges@)[0] == v@.subrange(
                ranges@[0].0 as int,
                ranges@[0].1 as int,
            ));
        }
        ranges[0]
    }
}

/// Returns `true` if the first line starts with "run benchmark"
/// (case-insensitive). Used to detect malformed or unauthorized trigger
/// attempts.
pub fn is_benchmark_trigger(body: &str) -> (r: bool)
    ensures
        r == lower_starts_with(trim(trigger_line(body@)), "run benchmark"@),
{
    let v = chars_of(body);
    let (a, b) = first_line_bounds(&v);
    let (ta, tb) = trim_bounds(&v, a, b);
    let p = chars_of("run benchmark");
    proof {
        assert(v@.subrange(ta as int, tb as int) == trim(trigger_line(body@)));
        assert(v@.subrange(ta as int, tb as int).len() == tb - ta);
    }
    if tb - ta < p.len() {
        proof {
            assert(p@ == "run benchmark"@);
            assert(!lower_starts_with(v@.subrange(ta as int, tb as int), p@));
        }
        return false;
    }
    let mut k: usize = 0;
    while k < p.len()
        invariant
            ta <= tb <= v@.len(),
            p@ == "run benchmark"@,
            v@ == body@,
            v@.subrange(ta as int, tb as int) == trim(trigger_line(body@)),
            p@.len() <= tb - ta,
            0 <= k <= p@.len(),
            forall|i: int| 0 <= i < k ==> lowers_to(v@[ta + i], p@[i]),
        decreases p@.len() - k,
    {
        let c = v[ta + k];
        let t = p[k];
        if !(to_ascii_lower(c) == t || (t == 'k' && c as u32 == 0x212A)) {
            proof {
                assert(v@.subrange(ta as int, tb as int)[k as int] == c);
                assert(!lowers_to(v@.subrange(ta as int, tb as int)[k as int], p@[k as int]));
            }
            return false;
        }
        k = k + 1;
    }
    proof {
        let s = v@.subrange(ta as int, tb as int);
        assert forall|i: int| 0 <= i < p@.len() implies lowers_to(s[i], p@[i]) by {
            assert(s[i] == v@[ta + i]);
        }
    }
    true
}

/// Returns `true` if `run benchmark` (singular) was used without benchmark names.
pub fn is_singular_no_names(body: &str) -> (r: bool)
    ensures
        r == (trigger_of(trigger_line(body@)) == Some(TriggerKindView::SingularNoNames)),
{
    let v = chars_of(body);
    let (a, b) = first_line_bounds(&v);
    let line = string_of_range(&v, a, b);
    match parse_trigger(line.as_str()) {
        Some(TriggerKind::SingularNoNames) => true,
        _ => false,
    }
}

/// Returns `true` if the comment body is exactly "show benchmark queue"
/// (case-insensitive, surrounding whitespace ignored).
pub fn is_queue_request(body: &str) -> (r: bool)
    ensures
        r == eq_ignore_ascii_case(trim(body@), "show benchmark queue"@),
{
    let v = chars_of(body);
    let (a, b) = trim_bounds(&v, 0, v.len());
    proof {
        assert(v@.subrange(0, v@.len() as int) =~= v@);
    }
    let p = chars_of("show benchmark queue");
    range_eq_ignore_ascii_case(&v, a, b, &p)
}

// ──────────────────────────── help messages ───────────────────────────

/// A list of names, or `(none)` when there are none.
pub open spec fn names_or_none(names: Seq<Seq<char>>) -> Seq<char> {
    if names.len() == 0 {
        "(none)"@
    } else {
        join(names, ", "@)
    }
}

/// The requested names the repo does not allow, in request order.
pub open spec fn unsupported_names(r: RepoEntryView, requested: Seq<Seq<char>>) -> Seq<Seq<char>>
    decreases requested.len(),
{
    if requested.len() == 0 {
        seq![]
    } else {
        let rest = unsupported_names(r, requested.drop_last());
        let n = requested.last();
        if !r.standard.contains(n) && !r.criterion.contains(n) {
            rest.push(n)
        } else {
            rest
        }
    }
}

/// The usage block of the help message.
pub open spec fn usage_text() -> Seq<char> {
    USAGE@
}

/// Usage and configuration help shown after the supported benchmark lists.
pub const USAGE: &'static str = "\n\n\
         Usage:\n\
         ```\n\
         run benchmark <name>           # run specific benchmark(s)\n\
         run benchmarks                 # run default suite\n\
         run benchmarks <name1> <name2> # run specific benchmarks\n\
         ```\n\n\
         Per-side configuration (`run benchmark tpch` followed by):\n\
         ```yaml\n\
         env:\n\
           SHARED_SETTING: enabled\n\
         baseline:\n\
           ref: v45.0.0\n\
           env:\n\
             DATAFUSION_RUNTIME_MEMORY_LIMIT: 1G\n\
         changed:\n\
           ref: v46.0.0\n\
           env:\n\
             DATAFUSION_RUNTIME_MEMORY_LIMIT: 2G\n\
         ```";

/// The help message listing the repo's benchmarks and flagging `requested`
/// names it does not support.
pub open spec fn supported_message(r: RepoEntryView, requested: Seq<Seq<char>>) -> Seq<char> {
    let bad = unsupported_names(r, requested);
    "Supported benchmarks:\n- Standard: "@ + names_or_none(sort_lex(r.standard))
        + "\n- Criterion: "@ + names_or_none(sort_lex(r.criterion)) + usage_text() + if bad.len()
        == 0 {
        Seq::<char>::empty()
    } else {
        "\nUnsupported benchmarks: "@ + join(bad, ", "@) + "."@
    }
}

fn names_or_none_exec(names: &Vec<String>) -> (r: String)
    ensures
        r@ == names_or_none(sort_lex(views(names@))),
{
    let sorted = sorted_strs(names);
    if sorted.len() == 0 {
        return crate::text::to_owned_string("(none)");
    }
    let mut owned: Vec<String> = Vec::new();
    let mut k: usize = 0;
    while k < sorted.len()
        invariant
            0 <= k <= sorted@.len(),
            views(owned@) == str_views(sorted@).take(k as int),
        decreases sorted@.len() - k,
    {
        let ghost before = owned@;
        owned.push(crate::text::to_owned_string(sorted[k]));
        proof {
            assert(views(owned@) =~= views(before).push(sorted@[k as int]@));
            assert(str_views(sorted@).take(k + 1) =~= str_views(sorted@).take(k as int).push(
                sorted@[k as int]@,
            ));
        }
        k = k + 1;
    }
    proof {
        assert(str_views(sorted@).take(sorted@.len() as int) =~= str_views(sorted@));
    }
    join_strings(&owned, ", ")
}

/// Build a markdown message listing all valid benchmarks for a repo,
/// highlighting any unsupported names.
pub fn supported_benchmarks_message(repo_entry: &RepoEntry, requested: &[String]) -> (r: String)
    ensures
        r@ == supported_message(repo_entry@, views(requested@)),
{
    let standard_str = names_or_none_exec(&repo_entry.standard);
    let criterion_str = names_or_none_exec(&repo_entry.criterion);
    let mut bad: Vec<String> = Vec::new();
    let mut k: usize = 0;
    while k < requested.len()
        invariant
            0 <= k <= requested@.len(),
            views(bad@) == unsupported_names(repo_entry@, views(requested@).take(k as int)),
        decreases requested@.len() - k,
    {
        let n = requested[k].as_str();
        proof {
            let t = views(requested@).take(k + 1);
            assert(t.drop_last() =~= views(requested@).take(k as int));
            assert(t.last() == n@);
        }
        if !contains_str(&repo_entry.standard, n) && !contains_str(&repo_entry.criterion, n) {
            let ghost before = bad@;
            bad.push(requested[k].clone());
            proof {
                assert(views(bad@) =~= views(before).push(n@));
            }
        }
        k = k + 1;
    }
    proof {
        assert(views(requested@).take(requested@.len() as int) =~= views(requested@));
    }
    let mut out = String::new();
    push_str(&mut out, "Supported benchmarks:\n- Standard: ");
    push_str(&mut out, standard_str.as_str());
    push_str(&mut out, "\n- Criterion: ");
    push_str(&mut out, criterion_str.as_str());
    push_str(&mut out, USAGE);
    let ghost head = out@;
    if bad.len() > 0 {
        push_str(&mut out, "\nUnsupported benchmarks: ");
        let listed = join_strings(&bad, ", ");
        push_str(&mut out, listed.as_str());
        push_str(&mut out, ".");
        proof {
            assert(out@ =~= head + ("\nUnsupported benchmarks: "@ + join(
                views(bad@),
                ", "@,
            ) + "."@));
        }
    } else {
        proof {
            assert(out@ =~= head + Seq::<char>::empty());
        }
    }
    proof {
        assert(out@ =~= supported_message(repo_entry@, views(requested@)));
    }
    out
}

/// A markdown link to a GitHub profile.
pub open spec fn user_link(u: Seq<char>) -> Seq<char> {
    "["@ + u + "](https://github.com/"@ + u + ")"@
}

/// The allowlist as a comma-separated list of profile links, sorted by login.
pub open spec fn allowed_markdown(users: Seq<Seq<char>>) -> Seq<char> {
    join(sort_lex(users).map_values(|u: Seq<char>| user_link(u)), ", "@)
}

/// Format the allowlist as a comma-separated list of GitHub profile links.
pub fn allowed_users_markdown(allowed_users: &Vec<String>) -> (r: String)
    ensures
        r@ == allowed_markdown(views(allowed_users@)),
{
    let sorted = sorted_strs(allowed_users);
    let ghost links = str_views(sorted@).map_values(|u: Seq<char>| user_link(u));
    let mut parts: Vec<String> = Vec::new();
    let mut k: usize = 0;
    while k < sorted.len()
        invariant
            0 <= k <= sorted@.len(),
            links == str_views(sorted@).map_values(|u: Seq<char>| user_link(u)),
            views(parts@) == links.take(k as int),
        decreases sorted@.len() - k,
    {
        let u = sorted[k];
        let mut link = String::new();
        push_str(&mut link, "[");
        push_str(&mut link, u);
        push_str(&mut link, "](https://github.com/");
        push_str(&mut link, u);
        push_str(&mut link, ")");
        let ghost before = parts@;
        proof {
            assert(link@ =~= user_link(u@));
            assert(links[k as int] == user_link(u@));
        }
        parts.push(link);
        proof {
            assert(views(parts@) =~= views(before).push(user_link(u@)));
            assert(links.take(k + 1) =~= links.take(k as int).push(links[k as int]));
        }
        k = k + 1;
    }
    proof {
        assert(links.take(sorted@.len() as int) =~= links);
    }
    join_strings(&parts, ", ")
}

// ─────────────────────────────── laws ─────────────────────────────────

/// The variables a parsed block gives one side: its `env` list, a later
/// binding of a key replacing an earlier one; none when the side or its
/// `env` is absent.
pub open spec fn block_side_env(side: Option<crate::yaml::SideConfig>) -> Seq<(Seq<char>, Seq<char>)> {
    match side {
        Some(s) => match s.env {
            Some(v) => bind_all(seq![], pair_views(v@)),
            None => seq![],
        },
        None => seq![],
    }
}

/// A request takes each side from the side of the same name: whatever the
/// trigger (default suite or named benchmarks), the baseline variables and
/// ref are those of the block's `baseline` section and the changed ones
/// those of its `changed` section; without a block both sides are empty.
pub proof fn lemma_request_sides_follow_config(r: RepoEntryView, body: Seq<char>, c: CommentConfig)
    ensures
        detect_spec(r, body, Ok(c)) matches DetectView::Parsed(req) ==> if config_block_of(body) is Some {
            &&& req.baseline_env_vars == block_side_env(c.baseline)
            &&& req.changed_env_vars == block_side_env(c.changed)
            &&& req.baseline_ref == (match c.baseline {
                Some(s) => opt_view(s.git_ref),
                None => None,
            })
            &&& req.changed_ref == (match c.changed {
                Some(s) => opt_view(s.git_ref),
                None => None,
            })
        } else {
            &&& req.baseline_env_vars == Seq::<(Seq<char>, Seq<char>)>::empty()
            &&& req.changed_env_vars == Seq::<(Seq<char>, Seq<char>)>::empty()
            &&& req.baseline_ref is None
            &&& req.changed_ref is None
        },
{
}

/// The requested names that neither list allows, in the order asked.
pub open spec fn not_allowed_by(r: RepoEntryView) -> spec_fn(Seq<char>) -> bool {
    |n: Seq<char>| !r.standard.contains(n) && !r.criterion.contains(n)
}

proof fn lemma_unsupported_is_filter(r: RepoEntryView, requested: Seq<Seq<char>>)
    ensures
        unsupported_names(r, requested) == requested.filter(not_allowed_by(r)),
    decreases requested.len(),
{
    reveal_with_fuel(Seq::filter, 1);
    if requested.len() > 0 {
        lemma_unsupported_is_filter(r, requested.drop_last());
        let n = requested.last();
        assert(not_allowed_by(r)(n) == (!r.standard.contains(n) && !r.criterion.contains(n)));
    } else {
        assert(requested.filter(not_allowed_by(r)) =~= Seq::<Seq<char>>::empty());
    }
}

/// The help message names every requested benchmark that the repo does not
/// allow, in the order asked, and only those: with none, it is the message
/// for an empty request; otherwise it is that message followed by
/// `Unsupported benchmarks:` and those names separated by `, `.
pub proof fn lemma_help_lists_every_unsupported_name(r: RepoEntryView, requested: Seq<Seq<char>>)
    ensures
        requested.filter(not_allowed_by(r)).len() == 0 ==> supported_message(r, requested)
            == supported_message(r, seq![]),
        requested.filter(not_allowed_by(r)).len() > 0 ==> supported_message(r, requested)
            == supported_message(r, seq![]) + "\nUnsupported benchmarks: "@ + join(
            requested.filter(not_allowed_by(r)),
            ", "@,
        ) + "."@,
        forall|i: int|
            0 <= i < requested.len() && !r.standard.contains(#[trigger] requested[i])
                && !r.criterion.contains(requested[i]) ==> requested.filter(not_allowed_by(r)).contains(
                requested[i],
            ),
{
    lemma_unsupported_is_filter(r, requested);
    assert(unsupported_names(r, seq![]) =~= Seq::<Seq<char>>::empty());
    assert forall|i: int|
        0 <= i < requested.len() && !r.standard.contains(#[trigger] requested[i])
            && !r.criterion.contains(requested[i]) implies requested.filter(not_allowed_by(r)).contains(
            requested[i],
        ) by {
        requested.lemma_filter_contains(not_allowed_by(r), i);
    }
}

} // verus!
