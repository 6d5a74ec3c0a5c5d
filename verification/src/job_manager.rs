//! The decisions of the Kubernetes reconciler: what a benchmark pod is
//! started with, what becomes of a job row once its Kubernetes Job is
//! observed, and what the PR is told.
//!
//! The service builds the Kubernetes objects from a [`JobPlan`], talks to
//! the API server and the database, and feeds the observations back.

use vstd::prelude::*;

use crate::config::Config;
use crate::json::{
    json_array_form, json_object_form, json_string_list, json_string_map, object_entries,
    parse_json_list, parse_json_map, value_or_empty,
};
use crate::github::{footer_for, issues_footer};
use crate::models::{
    bind, bind_all, keys_distinct, pair_views, status_transition_allowed, BenchmarkJob, EnvVars, JobStatus,
};
use crate::text::{
    ascii_lower, chars_of, first_index_in, first_index_of, i64_to_string, int_dec, is_whitespace,
    is_ws, join, join_strings, push_char, push_str, starts_with, string_of_range, to_ascii_lower,
    sort_lex, sorted_strs, to_owned_string, trim_start, views,
};
use crate::yaml::opt_view;

verus! {

/// Kubernetes DNS name of the controller service inside `namespace`; the
/// controller listens on 8080 for probes and the comment endpoint.
pub open spec fn controller_url_text(namespace: Seq<char>) -> Seq<char> {
    "http://benchmark-controller."@ + namespace + ".svc.cluster.local:8080"@
}

/// The URL runner pods post their comments to.
pub fn controller_url(namespace: &str) -> (r: String)
    ensures
        r@ == controller_url_text(namespace@),
{
    let mut s = String::new();
    push_str(&mut s, "http://benchmark-controller.");
    push_str(&mut s, namespace);
    push_str(&mut s, ".svc.cluster.local:8080");
    s
}

// ───────────────────────────── label values ───────────────────────────

/// `char::is_ascii_alphanumeric`.
pub open spec fn is_ascii_alnum(c: char) -> bool {
    ('0' <= c && c <= '9') || ('a' <= c && c <= 'z') || ('A' <= c && c <= 'Z')
}

fn ascii_alnum(c: char) -> (r: bool)
    ensures
        r == is_ascii_alnum(c),
{
    ('0' <= c && c <= '9') || ('a' <= c && c <= 'z') || ('A' <= c && c <= 'Z')
}

/// A character allowed in a label value as it is.
pub open spec fn is_label_char(c: char) -> bool {
    ('0' <= c && c <= '9') || ('a' <= c && c <= 'z') || c == '-' || c == '_' || c == '.'
}

/// Longest label value Kubernetes accepts.
pub const MAX_LABEL_LEN: usize = 63;

/// A character mapped into a label: allowed ones lowercased, others `-`.
pub open spec fn label_char(c: char) -> char {
    if is_ascii_alnum(c) || c == '-' || c == '_' || c == '.' {
        ascii_lower(c)
    } else {
        '-'
    }
}

/// `s` without leading characters that are not ASCII alphanumerics.
pub open spec fn trim_start_non_alnum(s: Seq<char>) -> Seq<char>
    decreases s.len(),
{
    if s.len() > 0 && !is_ascii_alnum(s[0]) {
        trim_start_non_alnum(s.drop_first())
    } else {
        s
    }
}

/// `s` without trailing characters that are not ASCII alphanumerics.
pub open spec fn trim_end_non_alnum(s: Seq<char>) -> Seq<char>
    decreases s.len(),
{
    if s.len() > 0 && !is_ascii_alnum(s.last()) {
        trim_end_non_alnum(s.drop_last())
    } else {
        s
    }
}

/// A GitHub login coerced into a label value: mapped, cut to 63
/// characters, trimmed to alphanumerics at both ends, `unknown` if nothing
/// is left.
pub open spec fn label_of(s: Seq<char>) -> Seq<char> {
    let m = s.map_values(|c: char| label_char(c));
    let cut = if m.len() > MAX_LABEL_LEN {
        m.take(MAX_LABEL_LEN as int)
    } else {
        m
    };
    let t = trim_end_non_alnum(trim_start_non_alnum(cut));
    if t.len() == 0 {
        "unknown"@
    } else {
        t
    }
}

/// The positions `[a, b)` of `v[lo..hi]` left once characters that are not
/// ASCII alphanumerics are trimmed from both ends.
fn trim_non_alnum_bounds(v: &Vec<char>, lo: usize, hi: usize) -> (r: (usize, usize))
    requires
        lo <= hi <= v.len(),
    ensures
        lo <= r.0 <= r.1 <= hi,
        v@.subrange(r.0 as int, r.1 as int) == trim_end_non_alnum(
            trim_start_non_alnum(v@.subrange(lo as int, hi as int)),
        ),
{
    let mut a = lo;
    while a < hi && !ascii_alnum(v[a])
        invariant
            lo <= a <= hi <= v.len(),
            trim_start_non_alnum(v@.subrange(lo as int, hi as int)) == trim_start_non_alnum(
                v@.subrange(a as int, hi as int),
            ),
        decreases hi - a,
    {
        proof {
            assert(v@.subrange(a as int, hi as int).drop_first() =~= v@.subrange(
                a + 1,
                hi as int,
            ));
        }
        a = a + 1;
    }
    let mut b = hi;
    proof {
        let s = v@.subrange(a as int, hi as int);
        if s.len() > 0 {
            assert(s[0] == v@[a as int]);
        }
    }
    while b > a && !ascii_alnum(v[b - 1])
        invariant
            lo <= a <= b <= hi <= v.len(),
            trim_end_non_alnum(trim_start_non_alnum(v@.subrange(lo as int, hi as int)))
                == trim_end_non_alnum(v@.subrange(a as int, b as int)),
        decreases b - a,
    {
        proof {
            assert(v@.subrange(a as int, b as int).drop_last() =~= v@.subrange(a as int, b - 1));
        }
        b = b - 1;
    }
    (a, b)
}

/// Coerce a GitHub login into a valid Kubernetes label value: lowercase
/// alphanumerics and `-_.`, max 63 chars, alphanumeric at both ends.
/// Labels are for audit only: an unexpected character is squashed rather
/// than failing the job.
pub fn sanitize_label(s: &str) -> (r: String)
    ensures
        r@ == label_of(s@),
{
    let v = crate::text::chars_of(s);
    let mut m: Vec<char> = Vec::new();
    let mut k: usize = 0;
    while k < v.len()
        invariant
            0 <= k <= v@.len(),
            m@ == v@.take(k as int).map_values(|c: char| label_char(c)),
        decreases v@.len() - k,
    {
        let c = v[k];
        let d = if ascii_alnum(c) || c == '-' || c == '_' || c == '.' {
            to_ascii_lower(c)
        } else {
            '-'
        };
        m.push(d);
        proof {
            assert(v@.take(k + 1).map_values(|c: char| label_char(c)) =~= v@.take(
                k as int,
            ).map_values(|c: char| label_char(c)).push(label_char(v@[k as int])));
        }
        k = k + 1;
    }
    proof {
        assert(v@.take(v@.len() as int) =~= v@);
    }
    let hi = if m.len() > MAX_LABEL_LEN {
        MAX_LABEL_LEN
    } else {
        m.len()
    };
    let (a, b) = trim_non_alnum_bounds(&m, 0, hi);
    proof {
        if m@.len() > MAX_LABEL_LEN {
            assert(m@.subrange(0, hi as int) =~= m@.take(MAX_LABEL_LEN as int));
        } else {
            assert(m@.subrange(0, hi as int) =~= m@);
        }
    }
    if a == b {
        proof {
            reveal_strlit("unknown");
        }
        return crate::text::to_owned_string("unknown");
    }
    crate::text::string_of_range(&m, a, b)
}

proof fn lemma_trim_start_non_alnum(s: Seq<char>)
    ensures
        trim_start_non_alnum(s).len() <= s.len(),
        trim_start_non_alnum(s).len() > 0 ==> is_ascii_alnum(trim_start_non_alnum(s)[0]),
        exists|k: int| 0 <= k <= s.len() && trim_start_non_alnum(s) == s.skip(k),
    decreases s.len(),
{
    if s.len() > 0 && !is_ascii_alnum(s[0]) {
        lemma_trim_start_non_alnum(s.drop_first());
        let k = choose|k: int|
            0 <= k <= s.drop_first().len() && trim_start_non_alnum(s.drop_first())
                == s.drop_first().skip(k);
        assert(s.drop_first().skip(k) =~= s.skip(k + 1));
    } else {
        assert(s.skip(0) =~= s);
    }
}

proof fn lemma_trim_end_non_alnum(s: Seq<char>)
    ensures
        trim_end_non_alnum(s).len() <= s.len(),
        trim_end_non_alnum(s).len() > 0 ==> is_ascii_alnum(trim_end_non_alnum(s).last()),
        trim_end_non_alnum(s) == s.take(trim_end_non_alnum(s).len() as int),
        s.len() > 0 && is_ascii_alnum(s[0]) ==> trim_end_non_alnum(s).len() > 0,
    decreases s.len(),
{
    if s.len() > 0 && !is_ascii_alnum(s.last()) {
        lemma_trim_end_non_alnum(s.drop_last());
        let t = trim_end_non_alnum(s.drop_last());
        assert(s.drop_last().take(t.len() as int) =~= s.take(t.len() as int));
        if s.len() > 1 && is_ascii_alnum(s[0]) {
            assert(s.drop_last()[0] == s[0]);
        }
    } else {
        assert(s.take(s.len() as int) =~= s);
    }
}

/// A label value is at most 63 characters, all of them lowercase ASCII
/// alphanumerics or `-`, `_`, `.`, and begins and ends with an
/// alphanumeric.
pub proof fn lemma_label_is_valid(s: Seq<char>)
    ensures
        label_of(s).len() <= MAX_LABEL_LEN,
        label_of(s).len() > 0,
        forall|i: int| 0 <= i < label_of(s).len() ==> is_label_char(#[trigger] label_of(s)[i]),
        is_ascii_alnum(label_of(s)[0]),
        is_ascii_alnum(label_of(s).last()),
{
    reveal_strlit("unknown");
    let m = s.map_values(|c: char| label_char(c));
    let cut = if m.len() > MAX_LABEL_LEN {
        m.take(MAX_LABEL_LEN as int)
    } else {
        m
    };
    assert forall|i: int| 0 <= i < cut.len() implies is_label_char(#[trigger] cut[i]) by {
        assert(cut[i] == label_char(s[i]));
    }
    let a = trim_start_non_alnum(cut);
    lemma_trim_start_non_alnum(cut);
    let k = choose|k: int| 0 <= k <= cut.len() && a == cut.skip(k);
    let t = trim_end_non_alnum(a);
    lemma_trim_end_non_alnum(a);
    assert forall|i: int| 0 <= i < t.len() implies is_label_char(#[trigger] t[i]) by {
        assert(t[i] == a[i]);
        assert(a[i] == cut[k + i]);
    }
    if t.len() > 0 {
        assert(t[0] == a[0]);
    }
}

proof fn lemma_trims_keep_alnum_ends(t: Seq<char>)
    requires
        t.len() > 0,
        is_ascii_alnum(t[0]),
        is_ascii_alnum(t.last()),
    ensures
        trim_end_non_alnum(trim_start_non_alnum(t)) == t,
{
}

/// Sanitising a label value again leaves it as it is.
pub proof fn lemma_label_idempotent(s: Seq<char>)
    ensures
        label_of(label_of(s)) == label_of(s),
{
    let t = label_of(s);
    lemma_label_is_valid(s);
    let m = t.map_values(|c: char| label_char(c));
    assert forall|i: int| 0 <= i < t.len() implies m[i] == t[i] by {
        assert(is_label_char(t[i]));
    }
    assert(m =~= t);
    lemma_trims_keep_alnum_ends(t);
}

// ───────────────────────────── runner tokens ──────────────────────────

/// The lowercase hexadecimal digit of `d < 16`.
pub open spec fn hex_digit(d: int) -> char {
    if d < 10 {
        (d + 48) as char
    } else {
        (d + 87) as char
    }
}

/// Two lowercase hex digits per byte (`format!("{b:02x}")`).
pub open spec fn hex_text(bytes: Seq<u8>) -> Seq<char>
    decreases bytes.len(),
{
    if bytes.len() == 0 {
        seq![]
    } else {
        hex_text(bytes.drop_last()).push(hex_digit((bytes.last() / 16) as int)).push(
            hex_digit((bytes.last() % 16) as int),
        )
    }
}

/// Byte `i` of the token: entropy byte `i` mixed with byte `i mod 16` of
/// the nanosecond clock.
pub open spec fn token_byte(entropy: Seq<u8>, now_nanos: u128, i: int) -> u8 {
    entropy[i] ^ (((now_nanos >> (((i % 16) * 8) as u128)) & 0xff) as u8)
}

/// The token made of `entropy` and the clock.
pub open spec fn token_text(entropy: Seq<u8>, now_nanos: u128) -> Seq<char> {
    hex_text(Seq::new(entropy.len(), |i: int| token_byte(entropy, now_nanos, i)))
}

fn push_hex_digit(s: &mut String, d: u8)
    requires
        d < 16,
    ensures
        final(s)@ == old(s)@.push(hex_digit(d as int)),
{
    let c = if d < 10 {
        (d + 48) as char
    } else {
        (d + 87) as char
    };
    push_char(s, c);
}

/// The runner token made of the bytes read from the system's entropy
/// source and the current time in nanoseconds: the bytes, each mixed with
/// a byte of the clock so that two reads that raced still differ, in
/// lowercase hex.
pub fn runner_token_from(entropy: &[u8], now_nanos: u128) -> (r: String)
    ensures
        r@ == token_text(entropy@, now_nanos),
{
    let ghost mixed = Seq::new(entropy@.len(), |i: int| token_byte(entropy@, now_nanos, i));
    let mut s = String::new();
    let mut i: usize = 0;
    proof {
        assert(mixed.take(0) =~= Seq::<u8>::empty());
    }
    while i < entropy.len()
        invariant
            0 <= i <= entropy@.len(),
            mixed == Seq::new(entropy@.len(), |i: int| token_byte(entropy@, now_nanos, i)),
            s@ == hex_text(mixed.take(i as int)),
        decreases entropy@.len() - i,
    {
        let shift: u128 = ((i % 16) * 8) as u128;
        let b: u8 = entropy[i] ^ (((now_nanos >> shift) & 0xff) as u8);
        proof {
            assert(b == token_byte(entropy@, now_nanos, i as int));
            assert(mixed.take(i + 1).drop_last() =~= mixed.take(i as int));
        }
        push_hex_digit(&mut s, b / 16);
        push_hex_digit(&mut s, b % 16);
        i = i + 1;
    }
    proof {
        assert(mixed.take(entropy@.len() as int) =~= mixed);
    }
    s
}

proof fn lemma_hex_text(bytes: Seq<u8>)
    ensures
        hex_text(bytes).len() == 2 * bytes.len(),
        forall|i: int|
            0 <= i < hex_text(bytes).len() ==> {
                let c = #[trigger] hex_text(bytes)[i];
                ('0' <= c && c <= '9') || ('a' <= c && c <= 'f')
            },
    decreases bytes.len(),
{
    if bytes.len() > 0 {
        lemma_hex_text(bytes.drop_last());
        let h = hex_text(bytes.drop_last());
        let x = hex_text(bytes);
        assert forall|i: int| 0 <= i < x.len() implies {
            let c = #[trigger] x[i];
            ('0' <= c && c <= '9') || ('a' <= c && c <= 'f')
        } by {
            if i < h.len() {
                assert(x[i] == h[i]);
            }
        }
    }
}

/// A token has two lowercase hex digits per entropy byte (64 for the 32
/// bytes the service reads).
pub proof fn lemma_token_is_hex(entropy: Seq<u8>, now_nanos: u128)
    ensures
        token_text(entropy, now_nanos).len() == 2 * entropy.len(),
        forall|i: int|
            0 <= i < token_text(entropy, now_nanos).len() ==> {
                let c = #[trigger] token_text(entropy, now_nanos)[i];
                ('0' <= c && c <= '9') || ('a' <= c && c <= 'f')
            },
{
    lemma_hex_text(Seq::new(entropy.len(), |i: int| token_byte(entropy, now_nanos, i)));
}


// ──────────────────────────── pod environment ─────────────────────────

/// The `KEY=VALUE` strings of a legacy environment list as a map: strings
/// without `=` are dropped, a later binding of a key wins.
pub open spec fn legacy_pairs(items: Seq<Seq<char>>) -> Seq<(Seq<char>, Seq<char>)>
    decreases items.len(),
{
    if items.len() == 0 {
        seq![]
    } else {
        let acc = legacy_pairs(items.drop_last());
        let s = items.last();
        let i = first_index_of(s, '=');
        if i < 0 {
            acc
        } else {
            bind(acc, s.take(i), s.skip(i + 1))
        }
    }
}

/// The `KEY=VALUE` strings of a legacy environment list split at their
/// first `=`, in order; strings without `=` are dropped.
pub open spec fn kv_pairs(items: Seq<Seq<char>>) -> Seq<(Seq<char>, Seq<char>)>
    decreases items.len(),
{
    if items.len() == 0 {
        seq![]
    } else {
        let acc = kv_pairs(items.drop_last());
        let s = items.last();
        let i = first_index_of(s, '=');
        if i < 0 {
            acc
        } else {
            acc.push((s.take(i), s.skip(i + 1)))
        }
    }
}

proof fn lemma_legacy_pairs_bind_all(items: Seq<Seq<char>>)
    ensures
        legacy_pairs(items) == bind_all(seq![], kv_pairs(items)),
    decreases items.len(),
{
    if items.len() > 0 {
        lemma_legacy_pairs_bind_all(items.drop_last());
        let s = items.last();
        let i = first_index_of(s, '=');
        if i >= 0 {
            let p = kv_pairs(items.drop_last());
            assert(p.push((s.take(i), s.skip(i + 1))).drop_last() =~= p);
        }
    }
}

/// The shared environment of a job row, as its map in key order: a JSON
/// array of `KEY=VALUE` strings (the legacy form) or a JSON object of
/// strings, each read into the same map.
pub open spec fn shared_env_of(text: Seq<char>) -> Result<Seq<(Seq<char>, Seq<char>)>, Seq<char>> {
    if starts_with(trim_start(text), "["@) {
        match json_string_list(text) {
            Ok(items) => Ok(object_entries(kv_pairs(items))),
            Err(e) => Err(e),
        }
    } else {
        json_string_map(text)
    }
}

/// The entries of `env` in key order.
fn sorted_entries(env: &EnvVars) -> (r: Vec<(String, String)>)
    requires
        keys_distinct(env@),
    ensures
        pair_views(r@) == sort_lex(env@.map_values(|p: (Seq<char>, Seq<char>)| p.0)).map_values(
            |k: Seq<char>| (k, value_or_empty(env@, k)),
        ),
{
    let ghost all_keys = env@.map_values(|p: (Seq<char>, Seq<char>)| p.0);
    let mut keys: Vec<String> = Vec::new();
    let mut k: usize = 0;
    while k < env.entries.len()
        invariant
            0 <= k <= env@.len(),
            env@.len() == env.entries@.len(),
            all_keys == env@.map_values(|p: (Seq<char>, Seq<char>)| p.0),
            views(keys@) == all_keys.take(k as int),
        decreases env@.len() - k,
    {
        let ghost before = keys@;
        keys.push(env.entries[k].0.clone());
        proof {
            assert(env@[k as int] == (env.entries@[k as int].0@, env.entries@[k as int].1@));
            assert(views(keys@) =~= views(before).push(all_keys[k as int]));
            assert(all_keys.take(k + 1) =~= all_keys.take(k as int).push(all_keys[k as int]));
        }
        k = k + 1;
    }
    proof {
        assert(all_keys.take(env@.len() as int) =~= all_keys);
    }
    let sorted = sorted_strs(&keys);
    let ghost target = sort_lex(all_keys).map_values(|x: Seq<char>| (x, value_or_empty(env@, x)));
    let mut out: Vec<(String, String)> = Vec::new();
    let mut j: usize = 0;
    proof {
        assert(pair_views(out@) =~= target.take(0));
    }
    while j < sorted.len()
        invariant
            0 <= j <= sorted@.len(),
            crate::text::str_views(sorted@) == sort_lex(all_keys),
            target == sort_lex(all_keys).map_values(|x: Seq<char>| (x, value_or_empty(env@, x))),
            keys_distinct(env@),
            pair_views(out@) == target.take(j as int),
        decreases sorted@.len() - j,
    {
        let key = sorted[j];
        let value = match env.get(key) {
            Some(v) => v.clone(),
            None => String::new(),
        };
        let ghost before = out@;
        out.push((to_owned_string(key), value));
        proof {
            assert(crate::text::str_views(sorted@)[j as int] == key@);
            assert(target[j as int] == (key@, value_or_empty(env@, key@)));
            assert(pair_views(out@) =~= pair_views(before).push((key@, value@)));
            assert(target.take(j + 1) =~= target.take(j as int).push(target[j as int]));
        }
        j = j + 1;
    }
    proof {
        assert(target.take(sorted@.len() as int) =~= target);
    }
    out
}

fn legacy_env(items: &Vec<String>) -> (r: EnvVars)
    ensures
        r@ == legacy_pairs(views(items@)),
        keys_distinct(r@),
{
    let ghost all = views(items@);
    let mut env = EnvVars::new();
    let mut k: usize = 0;
    proof {
        assert(all.take(0) =~= Seq::<Seq<char>>::empty());
    }
    while k < items.len()
        invariant
            0 <= k <= items@.len(),
            all == views(items@),
            env@ == legacy_pairs(all.take(k as int)),
            keys_distinct(env@),
        decreases items@.len() - k,
    {
        let v = chars_of(items[k].as_str());
        proof {
            assert(all.take(k + 1).drop_last() =~= all.take(k as int));
            assert(all.take(k + 1).last() == v@);
            assert(v@.subrange(0, v@.len() as int) =~= v@);
        }
        match first_index_in(&v, 0, v.len(), '=') {
            Some(i) => {
                let key = string_of_range(&v, 0, i);
                let val = string_of_range(&v, i + 1, v.len());
                proof {
                    assert(v@.subrange(0, i as int) =~= v@.take(i as int));
                    assert(v@.subrange(i + 1, v@.len() as int) =~= v@.skip(i + 1));
                }
                env.insert(key, val);
            },
            None => {},
        }
        k = k + 1;
    }
    proof {
        assert(all.take(items@.len() as int) =~= all);
    }
    env
}

/// The shared environment of a job row, from its `env_vars` column.
pub fn shared_env(text: &str) -> (r: Result<Vec<(String, String)>, String>)
    ensures
        match r {
            Ok(v) => shared_env_of(text@) == Ok::<Seq<(Seq<char>, Seq<char>)>, Seq<char>>(
                pair_views(v@),
            ),
            Err(e) => shared_env_of(text@) == Err::<Seq<(Seq<char>, Seq<char>)>, Seq<char>>(e@),
        },
        json_array_form(text@) matches Some(items) ==> (r matches Ok(v) && pair_views(v@)
            == object_entries(kv_pairs(items))),
        json_object_form(text@) matches Some(pairs) ==> (r matches Ok(v) && pair_views(v@)
            == object_entries(pairs)),
{
    let v = chars_of(text);
    let mut a: usize = 0;
    proof {
        assert(v@.skip(0) =~= v@);
    }
    while a < v.len() && is_whitespace(v[a])
        invariant
            0 <= a <= v@.len(),
            v@ == text@,
            trim_start(v@) == trim_start(v@.skip(a as int)),
        decreases v@.len() - a,
    {
        proof {
            crate::text::lemma_trim_start_skip(v@, a as int);
        }
        a = a + 1;
    }
    proof {
        reveal_strlit("[");
        let t = v@.skip(a as int);
        if t.len() > 0 {
            assert(t[0] == v@[a as int]);
            if !is_ws(t[0]) {
                assert(trim_start(t) == t);
            }
        } else {
            assert(trim_start(t) == t);
        }
    }
    if a < v.len() && v[a] == '[' {
        proof {
            reveal_strlit("[");
            assert(v@.skip(a as int).take(1) =~= seq!['[']);
            assert("["@ =~= seq!['[']);
            assert(trim_start(text@) == v@.skip(a as int));
            assert(starts_with(trim_start(text@), "["@));
        }
        match parse_json_list(text) {
            Ok(items) => {
                let env = legacy_env(&items);
                proof {
                    lemma_legacy_pairs_bind_all(views(items@));
                }
                Ok(sorted_entries(&env))
            },
            Err(e) => Err(e),
        }
    } else {
        proof {
            reveal_strlit("[");
            assert("["@ =~= seq!['[']);
            let t = v@.skip(a as int);
            assert(trim_start(text@) == t);
            if t.len() > 0 {
                assert(t.take(1)[0] == t[0]);
                assert(t[0] == v@[a as int]);
            }
            assert(!starts_with(trim_start(text@), "["@));
        }
        parse_json_map(text)
    }
}

/// Where a pod environment variable takes its value from.
#[derive(Debug, Clone)]
pub enum EnvSource {
    /// A literal value.
    Value(String),
    /// A field of the pod object (the downward API).
    FieldPath(String),
    /// A resource limit of the container (the downward API).
    ResourceLimit(String),
}

/// A pod environment variable.
#[derive(Debug, Clone)]
pub struct EnvEntry {
    pub name: String,
    pub source: EnvSource,
}

pub enum EnvSourceView {
    Value(Seq<char>),
    FieldPath(Seq<char>),
    ResourceLimit(Seq<char>),
}

pub open spec fn entry_view(e: EnvEntry) -> (Seq<char>, EnvSourceView) {
    (
        e.name@,
        match e.source {
            EnvSource::Value(v) => EnvSourceView::Value(v@),
            EnvSource::FieldPath(v) => EnvSourceView::FieldPath(v@),
            EnvSource::ResourceLimit(v) => EnvSourceView::ResourceLimit(v@),
        },
    )
}

pub open spec fn env_view(v: Seq<EnvEntry>) -> Seq<(Seq<char>, EnvSourceView)> {
    v.map_values(|e: EnvEntry| entry_view(e))
}

pub open spec fn val(name: Seq<char>, value: Seq<char>) -> (Seq<char>, EnvSourceView) {
    (name, EnvSourceView::Value(value))
}

pub open spec fn opt_entry(name: Seq<char>, value: Option<Seq<char>>) -> Seq<(Seq<char>, EnvSourceView)> {
    match value {
        Some(v) => seq![val(name, v)],
        None => seq![],
    }
}

/// What every runner pod is told about its job.
pub open spec fn env_base(
    c: Config,
    j: BenchmarkJob,
    token: Seq<char>,
    benchmarks: Seq<Seq<char>>,
) -> Seq<(Seq<char>, EnvSourceView)> {
    seq![
        val("PR_URL"@, j.pr_url@),
        val("COMMENT_ID"@, int_dec(j.comment_id as int)),
        val("BENCHMARKS"@, join(benchmarks, " "@)),
        val("BENCH_TYPE"@, j.job_type@),
        val("REPO"@, j.repo@),
        val("JOB_ID"@, int_dec(j.id as int)),
        val("RUNNER_TOKEN"@, token),
        val("CONTROLLER_URL"@, controller_url_text(c.k8s_namespace@)),
        val("RUNNER_JOB_DEADLINE_SECS"@, int_dec(c.active_deadline_secs as int)),
        val("CARGO_PROFILE_RELEASE_DEBUG"@, "1"@),
    ]
}

/// Whether a job type runs criterion benchmarks.
pub open spec fn is_criterion_type(t: Seq<char>) -> bool {
    t == "criterion"@ || t == "arrow_criterion"@
}

/// The per-job part of the environment: the PR branch, the shared
/// variables, the per-side maps and refs, and the benchmark a criterion
/// job runs.
pub open spec fn env_job(
    j: BenchmarkJob,
    head_ref: Seq<char>,
    benchmarks: Seq<Seq<char>>,
    shared: Seq<(Seq<char>, Seq<char>)>,
) -> Seq<(Seq<char>, EnvSourceView)> {
    (if head_ref.len() > 0 {
        seq![val("PR_HEAD_REF"@, head_ref)]
    } else {
        seq![]
    }) + shared.map_values(|p: (Seq<char>, Seq<char>)| val(p.0, p.1)) + seq![
        val("BASELINE_ENV_VARS"@, j.baseline_env_vars@),
        val("CHANGED_ENV_VARS"@, j.changed_env_vars@),
    ] + opt_entry("BASELINE_REF"@, opt_view(j.baseline_ref)) + opt_entry(
        "CHANGED_REF"@,
        opt_view(j.changed_ref),
    ) + if is_criterion_type(j.job_type@) && benchmarks.len() > 0 {
        seq![val("BENCH_NAME"@, benchmarks[0])]
    } else {
        seq![]
    }
}

/// The variables for the caches and the runner's repository, when
/// configured.
pub open spec fn env_services(c: Config) -> Seq<(Seq<char>, EnvSourceView)> {
    (match c.sccache_gcs_bucket {
        Some(b) => seq![
            val("SCCACHE_GCS_BUCKET"@, b@),
            val("RUSTC_WRAPPER"@, "sccache"@),
            val("SCCACHE_GCS_RW_MODE"@, "READ_WRITE"@),
        ],
        None => seq![],
    }) + opt_entry("DATA_CACHE_BUCKET"@, opt_view(c.data_cache_bucket)) + opt_entry(
        "RUNNER_REPO_URL"@,
        opt_view(c.runner_repo_url),
    )
}

/// The pod metadata exposed through the downward API.
pub open spec fn env_downward() -> Seq<(Seq<char>, EnvSourceView)> {
    seq![
        ("NODE_NAME"@, EnvSourceView::FieldPath("spec.nodeName"@)),
        ("POD_CPU_LIMIT"@, EnvSourceView::ResourceLimit("limits.cpu"@)),
        ("POD_MEM_LIMIT"@, EnvSourceView::ResourceLimit("limits.memory"@)),
    ]
}

fn push_value(env: &mut Vec<EnvEntry>, name: &str, value: String)
    ensures
        env_view(final(env)@) == env_view(old(env)@).push(val(name@, value@)),
{
    let ghost before = env@;
    env.push(EnvEntry { name: to_owned_string(name), source: EnvSource::Value(value) });
    proof {
        assert(env_view(env@) =~= env_view(before).push(val(name@, value@)));
    }
}

fn push_opt(env: &mut Vec<EnvEntry>, name: &str, value: &Option<String>)
    ensures
        env_view(final(env)@) == env_view(old(env)@) + opt_entry(name@, opt_view(*value)),
{
    match value {
        Some(v) => {
            push_value(env, name, v.clone());
            proof {
                assert(env_view(old(env)@).push(val(name@, v@)) =~= env_view(old(env)@) + seq![
                    val(name@, v@),
                ]);
            }
        },
        None => {
            proof {
                assert(env_view(env@) =~= env_view(old(env)@) + Seq::<
                    (Seq<char>, EnvSourceView),
                >::empty());
            }
        },
    }
}

fn env_base_exec(
    config: &Config,
    job: &BenchmarkJob,
    runner_token: &str,
    benchmarks: &Vec<String>,
) -> (r: Vec<EnvEntry>)
    ensures
        env_view(r@) == env_base(*config, *job, runner_token@, views(benchmarks@)),
{
    let mut env: Vec<EnvEntry> = Vec::new();
    push_value(&mut env, "PR_URL", job.pr_url.clone());
    push_value(&mut env, "COMMENT_ID", i64_to_string(job.comment_id));
    proof {
        assert(benchmarks@.map_values(|p: String| p@) =~= views(benchmarks@));
    }
    push_value(&mut env, "BENCHMARKS", join_strings(benchmarks, " "));
    push_value(&mut env, "BENCH_TYPE", job.job_type.clone());
    push_value(&mut env, "REPO", job.repo.clone());
    push_value(&mut env, "JOB_ID", i64_to_string(job.id));
    push_value(&mut env, "RUNNER_TOKEN", to_owned_string(runner_token));
    push_value(&mut env, "CONTROLLER_URL", controller_url(config.k8s_namespace.as_str()));
    push_value(&mut env, "RUNNER_JOB_DEADLINE_SECS", i64_to_string(config.active_deadline_secs));
    push_value(&mut env, "CARGO_PROFILE_RELEASE_DEBUG", to_owned_string("1"));
    proof {
        assert(env_view(env@) =~= env_base(*config, *job, runner_token@, views(benchmarks@)));
    }
    env
}

fn env_job_exec(
    env: &mut Vec<EnvEntry>,
    job: &BenchmarkJob,
    pr_head_ref: &str,
    benchmarks: &Vec<String>,
    shared: &Vec<(String, String)>,
)
    ensures
        env_view(final(env)@) == env_view(old(env)@) + env_job(
            *job,
            pr_head_ref@,
            views(benchmarks@),
            pair_views(shared@),
        ),
{
    let ghost e0 = env_view(env@);
    if !pr_head_ref.is_empty() {
        push_value(env, "PR_HEAD_REF", to_owned_string(pr_head_ref));
    }
    let ghost e1 = env_view(env@);
    proof {
        if pr_head_ref@.len() > 0 {
            assert(e1 =~= e0 + seq![val("PR_HEAD_REF"@, pr_head_ref@)]);
        } else {
            assert(e1 =~= e0 + Seq::<(Seq<char>, EnvSourceView)>::empty());
        }
    }
    let ghost sh = pair_views(shared@).map_values(|p: (Seq<char>, Seq<char>)| val(p.0, p.1));
    let mut k: usize = 0;
    while k < shared.len()
        invariant
            0 <= k <= shared@.len(),
            sh == pair_views(shared@).map_values(|p: (Seq<char>, Seq<char>)| val(p.0, p.1)),
            env_view(env@) == e1 + sh.take(k as int),
        decreases shared@.len() - k,
    {
        push_value(env, shared[k].0.as_str(), shared[k].1.clone());
        proof {
            assert(sh.take(k + 1) =~= sh.take(k as int).push(sh[k as int]));
        }
        k = k + 1;
    }
    proof {
        assert(sh.take(shared@.len() as int) =~= sh);
    }
    push_value(env, "BASELINE_ENV_VARS", job.baseline_env_vars.clone());
    push_value(env, "CHANGED_ENV_VARS", job.changed_env_vars.clone());
    push_opt(env, "BASELINE_REF", &job.baseline_ref);
    push_opt(env, "CHANGED_REF", &job.changed_ref);
    let ghost e5 = env_view(env@);
    let crit = crate::text::str_eq(job.job_type.as_str(), "criterion") || crate::text::str_eq(
        job.job_type.as_str(),
        "arrow_criterion",
    );
    if crit && benchmarks.len() > 0 {
        push_value(env, "BENCH_NAME", benchmarks[0].clone());
    }
    proof {
        if crit && benchmarks@.len() > 0 {
            assert(views(benchmarks@)[0] == benchmarks@[0]@);
        }
        assert(env_view(env@) =~= e0 + env_job(
            *job,
            pr_head_ref@,
            views(benchmarks@),
            pair_views(shared@),
        ));
    }
}

fn env_services_exec(env: &mut Vec<EnvEntry>, config: &Config)
    ensures
        env_view(final(env)@) == env_view(old(env)@) + env_services(*config),
{
    let ghost e0 = env_view(env@);
    match &config.sccache_gcs_bucket {
        Some(bucket) => {
            push_value(env, "SCCACHE_GCS_BUCKET", bucket.clone());
            push_value(env, "RUSTC_WRAPPER", to_owned_string("sccache"));
            push_value(env, "SCCACHE_GCS_RW_MODE", to_owned_string("READ_WRITE"));
        },
        None => {},
    }
    push_opt(env, "DATA_CACHE_BUCKET", &config.data_cache_bucket);
    push_opt(env, "RUNNER_REPO_URL", &config.runner_repo_url);
    proof {
        assert(env_view(env@) =~= e0 + env_services(*config));
    }
}

fn env_downward_exec(env: &mut Vec<EnvEntry>)
    ensures
        env_view(final(env)@) == env_view(old(env)@) + env_downward(),
{
    let ghost before = env@;
    env.push(
        EnvEntry {
            name: to_owned_string("NODE_NAME"),
            source: EnvSource::FieldPath(to_owned_string("spec.nodeName")),
        },
    );
    env.push(
        EnvEntry {
            name: to_owned_string("POD_CPU_LIMIT"),
            source: EnvSource::ResourceLimit(to_owned_string("limits.cpu")),
        },
    );
    env.push(
        EnvEntry {
            name: to_owned_string("POD_MEM_LIMIT"),
            source: EnvSource::ResourceLimit(to_owned_string("limits.memory")),
        },
    );
    proof {
        assert(env_view(env@) =~= env_view(before) + env_downward());
    }
}


// ────────────────────────────── job plans ─────────────────────────────

/// Everything a benchmark pod is created with that depends on the job and
/// the configuration; the rest of the Kubernetes Job is fixed.
#[derive(Debug, Clone)]
pub struct JobPlan {
    /// `bench-c{comment_id}-{id}`.
    pub name: String,
    pub namespace: String,
    pub env: Vec<EnvEntry>,
    /// CPU and memory requests, equal to the limits.
    pub cpu: String,
    pub memory: String,
    pub ephemeral_storage: String,
    /// GCE machine family and the node architecture that goes with it.
    pub machine_family: String,
    pub arch: String,
    /// Value of the `comment-id` label.
    pub comment_label: String,
    /// Value of the `triggered-by` label.
    pub triggered_by: String,
    pub image: String,
    pub active_deadline_secs: i64,
    pub ttl_after_finished_secs: i32,
    pub storage_class: String,
    /// Labels of the Job.
    pub labels: Vec<(String, String)>,
    /// Labels of its pod.
    pub pod_labels: Vec<(String, String)>,
    /// Node selector: the Performance compute class, the machine family and
    /// the architecture.
    pub node_selector: Vec<(String, String)>,
    /// Retries of a failed pod (none).
    pub backoff_limit: i32,
    pub service_account: String,
    pub restart_policy: String,
    /// The pod's one toleration (spot nodes): key, operator, effect.
    pub toleration_key: String,
    pub toleration_operator: String,
    pub toleration_effect: String,
}

pub struct JobPlanView {
    pub name: Seq<char>,
    pub namespace: Seq<char>,
    pub env: Seq<(Seq<char>, EnvSourceView)>,
    pub cpu: Seq<char>,
    pub memory: Seq<char>,
    pub ephemeral_storage: Seq<char>,
    pub machine_family: Seq<char>,
    pub arch: Seq<char>,
    pub comment_label: Seq<char>,
    pub triggered_by: Seq<char>,
    pub image: Seq<char>,
    pub active_deadline_secs: i64,
    pub ttl_after_finished_secs: i32,
    pub storage_class: Seq<char>,
    pub labels: Seq<(Seq<char>, Seq<char>)>,
    pub pod_labels: Seq<(Seq<char>, Seq<char>)>,
    pub node_selector: Seq<(Seq<char>, Seq<char>)>,
    pub backoff_limit: i32,
    pub service_account: Seq<char>,
    pub restart_policy: Seq<char>,
    pub toleration: (Seq<char>, Seq<char>, Seq<char>),
}

pub open spec fn job_plan_view(p: JobPlan) -> JobPlanView {
    JobPlanView {
        name: p.name@,
        namespace: p.namespace@,
        env: env_view(p.env@),
        cpu: p.cpu@,
        memory: p.memory@,
        ephemeral_storage: p.ephemeral_storage@,
        machine_family: p.machine_family@,
        arch: p.arch@,
        comment_label: p.comment_label@,
        triggered_by: p.triggered_by@,
        image: p.image@,
        active_deadline_secs: p.active_deadline_secs,
        ttl_after_finished_secs: p.ttl_after_finished_secs,
        storage_class: p.storage_class@,
        labels: pair_views(p.labels@),
        pod_labels: pair_views(p.pod_labels@),
        node_selector: pair_views(p.node_selector@),
        backoff_limit: p.backoff_limit,
        service_account: p.service_account@,
        restart_policy: p.restart_policy@,
        toleration: (p.toleration_key@, p.toleration_operator@, p.toleration_effect@),
    }
}

/// The name of a job's Kubernetes Job.
pub open spec fn job_name_text(j: BenchmarkJob) -> Seq<char> {
    "bench-c"@ + int_dec(j.comment_id as int) + "-"@ + int_dec(j.id as int)
}

/// The machine family for a requested CPU architecture: `c4a` for ARM,
/// `c4` for x86, the configured default otherwise.
pub open spec fn machine_family_of(cpu_arch: Option<Seq<char>>, default: Seq<char>) -> Seq<char> {
    match cpu_arch {
        Some(a) => if a == "arm64"@ {
            "c4a"@
        } else if a == "amd64"@ || a == "x86_64"@ {
            "c4"@
        } else {
            default
        },
        None => default,
    }
}

/// The node architecture of a machine family.
pub open spec fn arch_of(family: Seq<char>) -> Seq<char> {
    if family == "c4a"@ {
        "arm64"@
    } else {
        "amd64"@
    }
}

/// The full environment of a runner pod.
pub open spec fn plan_env(
    c: Config,
    j: BenchmarkJob,
    token: Seq<char>,
    head_ref: Seq<char>,
    benchmarks: Seq<Seq<char>>,
    shared: Seq<(Seq<char>, Seq<char>)>,
) -> Seq<(Seq<char>, EnvSourceView)> {
    env_base(c, j, token, benchmarks) + env_job(j, head_ref, benchmarks, shared) + env_services(c)
        + env_downward()
}

pub open spec fn plan_of(
    c: Config,
    j: BenchmarkJob,
    token: Seq<char>,
    head_ref: Seq<char>,
    benchmarks: Seq<Seq<char>>,
    shared: Seq<(Seq<char>, Seq<char>)>,
) -> JobPlanView {
    let family = machine_family_of(opt_view(j.cpu_arch), c.default_machine_family@);
    JobPlanView {
        name: job_name_text(j),
        namespace: c.k8s_namespace@,
        env: plan_env(c, j, token, head_ref, benchmarks, shared),
        cpu: match j.cpu_request {
            Some(x) => x@,
            None => c.default_cpu@,
        },
        memory: match j.memory_request {
            Some(x) => x@,
            None => c.default_memory@,
        },
        ephemeral_storage: c.ephemeral_storage@,
        machine_family: family,
        arch: arch_of(family),
        comment_label: int_dec(j.comment_id as int),
        triggered_by: label_of(j.login@),
        image: c.runner_image@,
        active_deadline_secs: c.active_deadline_secs,
        ttl_after_finished_secs: c.ttl_after_finished_secs,
        storage_class: c.storage_class@,
        labels: seq![
            ("app"@, "benchmark-runner"@),
            ("comment-id"@, int_dec(j.comment_id as int)),
            ("triggered-by"@, label_of(j.login@)),
        ],
        pod_labels: seq![("app"@, "benchmark-runner"@), ("comment-id"@, int_dec(j.comment_id as int))],
        node_selector: seq![
            ("cloud.google.com/compute-class"@, "Performance"@),
            ("cloud.google.com/machine-family"@, family),
            ("kubernetes.io/arch"@, arch_of(family)),
        ],
        backoff_limit: 0,
        service_account: "benchmark-runner"@,
        restart_policy: "Never"@,
        toleration: ("cloud.google.com/gke-spot"@, "Exists"@, "NoSchedule"@),
    }
}

/// The plan for a job row, or why its stored benchmarks or environment
/// cannot be read.
pub open spec fn k8s_plan_of(c: Config, j: BenchmarkJob, token: Seq<char>, head_ref: Seq<char>) -> Result<
    JobPlanView,
    Seq<char>,
> {
    match json_string_list(j.benchmarks@) {
        Err(e) => Err(e),
        Ok(b) => match shared_env_of(j.env_vars@) {
            Err(e) => Err(e),
            Ok(sh) => Ok(plan_of(c, j, token, head_ref, b, sh)),
        },
    }
}

fn machine_family_exec(cpu_arch: &Option<String>, default: &String) -> (r: String)
    ensures
        r@ == machine_family_of(opt_view(*cpu_arch), default@),
{
    match cpu_arch {
        Some(a) => {
            if crate::text::str_eq(a.as_str(), "arm64") {
                to_owned_string("c4a")
            } else if crate::text::str_eq(a.as_str(), "amd64") || crate::text::str_eq(
                a.as_str(),
                "x86_64",
            ) {
                to_owned_string("c4")
            } else {
                default.clone()
            }
        },
        None => default.clone(),
    }
}

fn job_name_exec(job: &BenchmarkJob) -> (r: String)
    ensures
        r@ == job_name_text(*job),
{
    let mut s = String::new();
    push_str(&mut s, "bench-c");
    let c = i64_to_string(job.comment_id);
    push_str(&mut s, c.as_str());
    push_str(&mut s, "-");
    let i = i64_to_string(job.id);
    push_str(&mut s, i.as_str());
    s
}

/// Plan the Kubernetes Job of a benchmark row: its name, the runner pod's
/// environment (job identity, the token and URL it posts comments with,
/// the shared and per-side environment, caches), its resources and the
/// machine family its architecture asks for.
pub fn plan_k8s_job(config: &Config, job: &BenchmarkJob, runner_token: &str, pr_head_ref: &str) -> (r:
    Result<JobPlan, String>)
    ensures
        match r {
            Ok(p) => k8s_plan_of(*config, *job, runner_token@, pr_head_ref@) == Ok::<
                JobPlanView,
                Seq<char>,
            >(job_plan_view(p)),
            Err(e) => k8s_plan_of(*config, *job, runner_token@, pr_head_ref@) == Err::<
                JobPlanView,
                Seq<char>,
            >(e@),
        },
{
    let benchmarks = match parse_json_list(job.benchmarks.as_str()) {
        Ok(b) => b,
        Err(e) => {
            return Err(e);
        },
    };
    let shared = match shared_env(job.env_vars.as_str()) {
        Ok(s) => s,
        Err(e) => {
            return Err(e);
        },
    };
    let mut env = env_base_exec(config, job, runner_token, &benchmarks);
    env_job_exec(&mut env, job, pr_head_ref, &benchmarks, &shared);
    env_services_exec(&mut env, config);
    env_downward_exec(&mut env);
    let family = machine_family_exec(&job.cpu_arch, &config.default_machine_family);
    let arch = if crate::text::str_eq(family.as_str(), "c4a") {
        to_owned_string("arm64")
    } else {
        to_owned_string("amd64")
    };
    let cpu = match &job.cpu_request {
        Some(x) => x.clone(),
        None => config.default_cpu.clone(),
    };
    let memory = match &job.memory_request {
        Some(x) => x.clone(),
        None => config.default_memory.clone(),
    };
    let comment_label = i64_to_string(job.comment_id);
    let triggered_by = sanitize_label(job.login.as_str());
    let labels = vec![
        (to_owned_string("app"), to_owned_string("benchmark-runner")),
        (to_owned_string("comment-id"), comment_label.clone()),
        (to_owned_string("triggered-by"), triggered_by.clone()),
    ];
    let pod_labels = vec![
        (to_owned_string("app"), to_owned_string("benchmark-runner")),
        (to_owned_string("comment-id"), comment_label.clone()),
    ];
    let node_selector = vec![
        (to_owned_string("cloud.google.com/compute-class"), to_owned_string("Performance")),
        (to_owned_string("cloud.google.com/machine-family"), family.clone()),
        (to_owned_string("kubernetes.io/arch"), arch.clone()),
    ];
    proof {
        assert(pair_views(labels@) =~= seq![
            ("app"@, "benchmark-runner"@),
            ("comment-id"@, int_dec(job.comment_id as int)),
            ("triggered-by"@, label_of(job.login@)),
        ]);
        assert(pair_views(pod_labels@) =~= seq![
            ("app"@, "benchmark-runner"@),
            ("comment-id"@, int_dec(job.comment_id as int)),
        ]);
        assert(pair_views(node_selector@) =~= seq![
            ("cloud.google.com/compute-class"@, "Performance"@),
            ("cloud.google.com/machine-family"@, family@),
            ("kubernetes.io/arch"@, arch@),
        ]);
    }
    let plan = JobPlan {
        labels,
        pod_labels,
        node_selector,
        backoff_limit: 0,
        service_account: to_owned_string("benchmark-runner"),
        restart_policy: to_owned_string("Never"),
        toleration_key: to_owned_string("cloud.google.com/gke-spot"),
        toleration_operator: to_owned_string("Exists"),
        toleration_effect: to_owned_string("NoSchedule"),
        name: job_name_exec(job),
        namespace: config.k8s_namespace.clone(),
        env,
        cpu,
        memory,
        ephemeral_storage: config.ephemeral_storage.clone(),
        machine_family: family,
        arch,
        comment_label,
        triggered_by,
        image: config.runner_image.clone(),
        active_deadline_secs: config.active_deadline_secs,
        ttl_after_finished_secs: config.ttl_after_finished_secs,
        storage_class: config.storage_class.clone(),
    };
    proof {
        assert(job_plan_view(plan).env =~= plan_env(
            *config,
            *job,
            runner_token@,
            pr_head_ref@,
            views(benchmarks@),
            pair_views(shared@),
        ));
    }
    Ok(plan)
}


// ───────────────────────────── job outcomes ───────────────────────────

/// A condition of a Kubernetes Job's status.
#[derive(Debug, Clone)]
pub struct JobCondition {
    pub type_: String,
    pub status: String,
    pub reason: Option<String>,
    pub message: Option<String>,
}

/// What the API server said about a running job's Kubernetes Job.
#[derive(Debug, Clone)]
pub enum JobObservation {
    /// The Job exists; its status's succeeded count and conditions, when
    /// it reports them.
    Found { succeeded: Option<i32>, conditions: Option<Vec<JobCondition>> },
    /// The API answered 404.
    NotFound,
    /// Any other error: try again next round.
    Unavailable,
}

/// What becomes of a job row.
#[derive(Debug, Clone)]
pub enum JobOutcome {
    /// Leave the row as it is.
    Unchanged,
    /// Mark it completed.
    Completed,
    /// Mark it failed with `error_message`, and post `notice` on the PR
    /// when there is one.
    Failed { error_message: String, notice: Option<String> },
}

pub enum OutcomeView {
    Unchanged,
    Completed,
    Failed(Seq<char>, Option<Seq<char>>),
}

pub open spec fn outcome_view(o: JobOutcome) -> OutcomeView {
    match o {
        JobOutcome::Unchanged => OutcomeView::Unchanged,
        JobOutcome::Completed => OutcomeView::Completed,
        JobOutcome::Failed { error_message, notice } => OutcomeView::Failed(
            error_message@,
            opt_view(notice),
        ),
    }
}

/// The first condition that says the Job failed for good.
pub open spec fn first_failed(conds: Seq<JobCondition>) -> Option<JobCondition>
    decreases conds.len(),
{
    if conds.len() == 0 {
        None
    } else if conds[0].type_@ == "Failed"@ && conds[0].status@ == "True"@ {
        Some(conds[0])
    } else {
        first_failed(conds.drop_first())
    }
}

pub open spec fn text_or_empty_opt(s: Option<Seq<char>>) -> Seq<char> {
    match s {
        Some(t) => t,
        None => seq![],
    }
}

/// The error recorded for a Job that failed for `reason`.
pub open spec fn failure_text(reason: Seq<char>) -> Seq<char> {
    if reason.len() == 0 {
        "K8s job failed"@
    } else {
        "K8s job failed: "@ + reason
    }
}

/// The link to the comment that requested a job.
pub open spec fn comment_url_text(j: BenchmarkJob) -> Seq<char> {
    j.pr_url@ + "#issuecomment-"@ + int_dec(j.comment_id as int)
}

/// The benchmarks of a job as the PR is told them: the stored list joined
/// with `, `, or the stored text as it is when it is no such list.
pub open spec fn requested_text(stored: Seq<char>) -> Seq<char> {
    match json_string_list(stored) {
        Ok(v) => join(v, ", "@),
        Err(_) => stored,
    }
}

/// The Kubernetes message, folded into a details block.
pub open spec fn k8s_detail(message: Seq<char>) -> Seq<char> {
    if message.len() == 0 {
        seq![]
    } else {
        "\n\n<details><summary>Kubernetes message</summary>\n\n```\n"@ + message
            + "\n```\n\n</details>"@
    }
}

/// The PR comment for a Job killed at its deadline: the runner is killed
/// before it can report, so the controller does.
pub open spec fn deadline_notice(c: Config, j: BenchmarkJob, message: Seq<char>) -> Seq<char> {
    "Benchmark for [this request]("@ + comment_url_text(j) + ") hit the "@ + int_dec(
        c.active_deadline_secs as int,
    ) + "s job deadline before finishing.\n\nBenchmarks requested: `"@ + requested_text(
        j.benchmarks@,
    ) + "`"@ + k8s_detail(message) + footer_for(opt_view(c.runner_repo_url))
}

/// What becomes of a running job given what the API server said.
pub open spec fn active_outcome(c: Config, j: BenchmarkJob, obs: JobObservation) -> OutcomeView {
    match obs {
        JobObservation::Found { succeeded, conditions } => {
            let done = match succeeded {
                Some(n) => n > 0,
                None => false,
            };
            let conds = match conditions {
                Some(v) => v@,
                None => seq![],
            };
            if done {
                OutcomeView::Completed
            } else {
                match first_failed(conds) {
                    Some(cond) => {
                        let reason = text_or_empty_opt(opt_view(cond.reason));
                        let message = text_or_empty_opt(opt_view(cond.message));
                        OutcomeView::Failed(
                            failure_text(reason),
                            if reason == "DeadlineExceeded"@ {
                                Some(deadline_notice(c, j, message))
                            } else {
                                None
                            },
                        )
                    },
                    None => OutcomeView::Unchanged,
                }
            }
        },
        JobObservation::NotFound => OutcomeView::Failed("K8s Job not found"@, None),
        JobObservation::Unavailable => OutcomeView::Unchanged,
    }
}

fn footer_exec(c: &Config) -> (r: String)
    ensures
        r@ == footer_for(opt_view(c.runner_repo_url)),
{
    match &c.runner_repo_url {
        Some(u) => issues_footer(Some(u.as_str())),
        None => issues_footer(None),
    }
}

/// The PR comment posted when a Job hits its deadline.
pub fn deadline_exceeded_comment(config: &Config, job: &BenchmarkJob, k8s_message: &str) -> (r:
    String)
    ensures
        r@ == deadline_notice(*config, *job, k8s_message@),
{
    let benchmarks = match parse_json_list(job.benchmarks.as_str()) {
        Ok(v) => join_strings(&v, ", "),
        Err(_) => job.benchmarks.clone(),
    };
    proof {
        match json_string_list(job.benchmarks@) {
            Ok(v) => {},
            Err(_) => {},
        }
    }
    let mut s = String::new();
    push_str(&mut s, "Benchmark for [this request](");
    push_str(&mut s, job.pr_url.as_str());
    push_str(&mut s, "#issuecomment-");
    let cid = i64_to_string(job.comment_id);
    push_str(&mut s, cid.as_str());
    push_str(&mut s, ") hit the ");
    let d = i64_to_string(config.active_deadline_secs);
    push_str(&mut s, d.as_str());
    push_str(&mut s, "s job deadline before finishing.\n\nBenchmarks requested: `");
    push_str(&mut s, benchmarks.as_str());
    push_str(&mut s, "`");
    if !k8s_message.is_empty() {
        push_str(&mut s, "\n\n<details><summary>Kubernetes message</summary>\n\n```\n");
        push_str(&mut s, k8s_message);
        push_str(&mut s, "\n```\n\n</details>");
    }
    let footer = footer_exec(config);
    push_str(&mut s, footer.as_str());
    proof {
        assert(s@ =~= deadline_notice(*config, *job, k8s_message@));
    }
    s
}

fn first_failed_exec(conds: &Vec<JobCondition>) -> (r: Option<usize>)
    ensures
        match r {
            Some(i) => i < conds@.len() && first_failed(conds@) == Some(conds@[i as int]),
            None => first_failed(conds@) is None,
        },
{
    let mut k: usize = 0;
    proof {
        assert(conds@.skip(0) =~= conds@);
    }
    while k < conds.len()
        invariant
            0 <= k <= conds@.len(),
            first_failed(conds@) == first_failed(conds@.skip(k as int)),
        decreases conds@.len() - k,
    {
        proof {
            assert(conds@.skip(k as int)[0] == conds@[k as int]);
            assert(conds@.skip(k as int).drop_first() =~= conds@.skip(k + 1));
        }
        if crate::text::str_eq(conds[k].type_.as_str(), "Failed") && crate::text::str_eq(
            conds[k].status.as_str(),
            "True",
        ) {
            return Some(k);
        }
        k = k + 1;
    }
    None
}

fn opt_str(s: &Option<String>) -> (r: &str)
    ensures
        r@ == text_or_empty_opt(opt_view(*s)),
{
    match s {
        Some(t) => t.as_str(),
        None => {
            proof {
                reveal_strlit("");
            }
            ""
        },
    }
}

/// Decide what becomes of a running job from its Kubernetes Job: a
/// succeeded pod completes it; a `Failed` condition (set once retries are
/// exhausted, unlike the failed-pod counter) fails it, and a deadline
/// failure is reported on the PR; a Job the API no longer knows fails it;
/// anything else leaves it running.
pub fn active_job_outcome(config: &Config, job: &BenchmarkJob, observed: &JobObservation) -> (r:
    JobOutcome)
    ensures
        outcome_view(r) == active_outcome(*config, *job, *observed),
{
    match observed {
        JobObservation::Found { succeeded, conditions } => {
            let done = match succeeded {
                Some(n) => *n > 0,
                None => false,
            };
            if done {
                return JobOutcome::Completed;
            }
            let empty: Vec<JobCondition> = Vec::new();
            let conds = match conditions {
                Some(v) => v,
                None => &empty,
            };
            match first_failed_exec(conds) {
                Some(i) => {
                    let reason = opt_str(&conds[i].reason);
                    let message = opt_str(&conds[i].message);
                    let error_message = if reason.is_empty() {
                        to_owned_string("K8s job failed")
                    } else {
                        let mut e = String::new();
                        push_str(&mut e, "K8s job failed: ");
                        push_str(&mut e, reason);
                        e
                    };
                    let notice = if crate::text::str_eq(reason, "DeadlineExceeded") {
                        Some(deadline_exceeded_comment(config, job, message))
                    } else {
                        None
                    };
                    JobOutcome::Failed { error_message, notice }
                },
                None => JobOutcome::Unchanged,
            }
        },
        JobObservation::NotFound => JobOutcome::Failed {
            error_message: to_owned_string("K8s Job not found"),
            notice: None,
        },
        JobObservation::Unavailable => JobOutcome::Unchanged,
    }
}

/// What became of a pending job's start.
#[derive(Debug, Clone)]
pub enum StartOutcome {
    /// Mark it running under Kubernetes Job `k8s_name`.
    Started { k8s_name: String },
    /// Mark it failed with `error_message` and post `comment` on the PR.
    Failed { error_message: String, comment: String },
}

pub enum StartView {
    Started(Seq<char>),
    Failed(Seq<char>, Seq<char>),
}

pub open spec fn start_view(o: StartOutcome) -> StartView {
    match o {
        StartOutcome::Started { k8s_name } => StartView::Started(k8s_name@),
        StartOutcome::Failed { error_message, comment } => StartView::Failed(
            error_message@,
            comment@,
        ),
    }
}

/// What becomes of a pending job once creating its Kubernetes Job gave
/// `created` (the Job's name, or the error's text).
pub open spec fn start_outcome(c: Config, j: BenchmarkJob, created: Result<Seq<char>, Seq<char>>) -> StartView {
    match created {
        Ok(name) => StartView::Started(name),
        Err(e) => StartView::Failed(
            "Failed to create K8s Job: "@ + e,
            "Failed to start benchmark for [this request]("@ + comment_url_text(j) + "): "@ + e
                + footer_for(opt_view(c.runner_repo_url)),
        ),
    }
}

pub open spec fn result_view(r: Result<String, String>) -> Result<Seq<char>, Seq<char>> {
    match r {
        Ok(n) => Ok(n@),
        Err(e) => Err(e@),
    }
}

/// Decide what becomes of a pending job once its Kubernetes Job was
/// created, or failed to be (its plan could not be made, or the API
/// refused it).
pub fn pending_job_outcome(config: &Config, job: &BenchmarkJob, created: Result<String, String>) -> (r:
    StartOutcome)
    ensures
        start_view(r) == start_outcome(*config, *job, result_view(created)),
{
    match created {
        Ok(k8s_name) => {
            StartOutcome::Started { k8s_name }
        },
        Err(e) => {
            let mut error_message = String::new();
            push_str(&mut error_message, "Failed to create K8s Job: ");
            push_str(&mut error_message, e.as_str());
            let mut comment = String::new();
            push_str(&mut comment, "Failed to start benchmark for [this request](");
            push_str(&mut comment, job.pr_url.as_str());
            push_str(&mut comment, "#issuecomment-");
            let cid = i64_to_string(job.comment_id);
            push_str(&mut comment, cid.as_str());
            push_str(&mut comment, "): ");
            push_str(&mut comment, e.as_str());
            let footer = footer_exec(config);
            push_str(&mut comment, footer.as_str());
            proof {
                assert(comment@ =~= "Failed to start benchmark for [this request]("@
                    + comment_url_text(*job) + "): "@ + e@ + footer_for(
                    opt_view(config.runner_repo_url),
                ));
            }
            StartOutcome::Failed { error_message, comment }
        },
    }
}

/// The status a job row moves to, if any.
pub open spec fn outcome_status(o: OutcomeView) -> Option<JobStatus> {
    match o {
        OutcomeView::Unchanged => None,
        OutcomeView::Completed => Some(JobStatus::Completed),
        OutcomeView::Failed(_, _) => Some(JobStatus::Failed),
    }
}

/// The reconciler only moves jobs along the lifecycle: a running job
/// becomes completed or failed, a pending one running or failed.
pub proof fn lemma_outcomes_follow_lifecycle(
    c: Config,
    j: BenchmarkJob,
    obs: JobObservation,
    created: Result<Seq<char>, Seq<char>>,
)
    ensures
        match outcome_status(active_outcome(c, j, obs)) {
            Some(t) => status_transition_allowed(JobStatus::Running, t),
            None => true,
        },
        status_transition_allowed(
            JobStatus::Pending,
            match start_outcome(c, j, created) {
                StartView::Started(_) => JobStatus::Running,
                StartView::Failed(_, _) => JobStatus::Failed,
            },
        ),
{
}

/// Only a Job that failed at its deadline is reported on the PR by the
/// controller; every other failure is left to the runner.
pub proof fn lemma_notice_only_at_deadline(c: Config, j: BenchmarkJob, obs: JobObservation)
    ensures
        active_outcome(c, j, obs) matches OutcomeView::Failed(_, Some(n)) ==> obs is Found
            && exists|cond: JobCondition|
            text_or_empty_opt(opt_view(cond.reason)) == "DeadlineExceeded"@ && n == deadline_notice(
                c,
                j,
                text_or_empty_opt(opt_view(cond.message)),
            ),
{
    if let OutcomeView::Failed(_, Some(n)) = active_outcome(c, j, obs) {
        if let JobObservation::Found { succeeded, conditions } = obs {
            let conds = match conditions {
                Some(v) => v@,
                None => seq![],
            };
            let cond = first_failed(conds)->0;
            assert(text_or_empty_opt(opt_view(cond.reason)) == "DeadlineExceeded"@);
        }
    }
}

/// The two stored forms of a row's shared environment give the same job:
/// a row whose `env_vars` column is a legacy list of `KEY=VALUE` strings,
/// and a row that differs from it only in holding, as a JSON object, the
/// map those strings make, are planned alike (same name, environment,
/// resources and everything else). What the two texts read to is as
/// [`shared_env`] states for the texts `serde_json` writes: the list's
/// strings, and the object's entries in key order.
pub proof fn lemma_legacy_env_same_plan(
    c: Config,
    legacy: BenchmarkJob,
    object: BenchmarkJob,
    token: Seq<char>,
    head_ref: Seq<char>,
    items: Seq<Seq<char>>,
)
    requires
        object == (BenchmarkJob { env_vars: object.env_vars, ..legacy }),
    ensures
        starts_with(trim_start(legacy.env_vars@), "["@) && json_string_list(legacy.env_vars@)
            == Ok::<Seq<Seq<char>>, Seq<char>>(items) && !starts_with(
            trim_start(object.env_vars@),
            "["@,
        ) && json_string_map(object.env_vars@) == Ok::<Seq<(Seq<char>, Seq<char>)>, Seq<char>>(
            object_entries(kv_pairs(items)),
        ) ==> k8s_plan_of(c, legacy, token, head_ref) == k8s_plan_of(c, object, token, head_ref),
{
    assert(legacy.benchmarks == object.benchmarks);
    assert(job_name_text(legacy) == job_name_text(object));
    assert forall|b: Seq<Seq<char>>, sh: Seq<(Seq<char>, Seq<char>)>|
        #![auto]
        plan_of(c, legacy, token, head_ref, b, sh) == plan_of(c, object, token, head_ref, b, sh) by {
        assert(plan_env(c, legacy, token, head_ref, b, sh) == plan_env(
            c,
            object,
            token,
            head_ref,
            b,
            sh,
        ));
    }
}

/// No variable name in `env` is `a` or `b`.
pub open spec fn names_avoid(env: Seq<(Seq<char>, EnvSourceView)>, a: Seq<char>, b: Seq<char>) -> bool {
    forall|m: int| 0 <= m < env.len() ==> #[trigger] env[m].0 != a && env[m].0 != b
}

proof fn lemma_names_avoid_concat(
    x: Seq<(Seq<char>, EnvSourceView)>,
    y: Seq<(Seq<char>, EnvSourceView)>,
    a: Seq<char>,
    b: Seq<char>,
)
    requires
        names_avoid(x, a, b),
        names_avoid(y, a, b),
    ensures
        names_avoid(x + y, a, b),
{
    assert forall|m: int| 0 <= m < (x + y).len() implies #[trigger] (x + y)[m].0 != a && (x + y)[m].0
        != b by {
        if m < x.len() {
            assert((x + y)[m] == x[m]);
        } else {
            assert((x + y)[m] == y[m - x.len()]);
        }
    }
}

/// What the pod learns after the per-side maps names neither of them.
proof fn lemma_later_names_avoid_side_maps(
    c: Config,
    j: BenchmarkJob,
    benchmarks: Seq<Seq<char>>,
)
    ensures
        names_avoid(
            opt_entry("BASELINE_REF"@, opt_view(j.baseline_ref)) + opt_entry(
                "CHANGED_REF"@,
                opt_view(j.changed_ref),
            ) + (if is_criterion_type(j.job_type@) && benchmarks.len() > 0 {
                seq![val("BENCH_NAME"@, benchmarks[0])]
            } else {
                seq![]
            }) + env_services(c) + env_downward(),
            "BASELINE_ENV_VARS"@,
            "CHANGED_ENV_VARS"@,
        ),
{
    reveal_strlit("BASELINE_ENV_VARS");
    reveal_strlit("CHANGED_ENV_VARS");
    reveal_strlit("BASELINE_REF");
    reveal_strlit("CHANGED_REF");
    reveal_strlit("BENCH_NAME");
    reveal_strlit("SCCACHE_GCS_BUCKET");
    reveal_strlit("RUSTC_WRAPPER");
    reveal_strlit("SCCACHE_GCS_RW_MODE");
    reveal_strlit("DATA_CACHE_BUCKET");
    reveal_strlit("RUNNER_REPO_URL");
    reveal_strlit("NODE_NAME");
    reveal_strlit("POD_CPU_LIMIT");
    reveal_strlit("POD_MEM_LIMIT");
    let a = "BASELINE_ENV_VARS"@;
    let b = "CHANGED_ENV_VARS"@;
    let r1 = opt_entry("BASELINE_REF"@, opt_view(j.baseline_ref));
    let r2 = opt_entry("CHANGED_REF"@, opt_view(j.changed_ref));
    let bn = if is_criterion_type(j.job_type@) && benchmarks.len() > 0 {
        seq![val("BENCH_NAME"@, benchmarks[0])]
    } else {
        seq![]
    };
    let sc = match c.sccache_gcs_bucket {
        Some(x) => seq![
            val("SCCACHE_GCS_BUCKET"@, x@),
            val("RUSTC_WRAPPER"@, "sccache"@),
            val("SCCACHE_GCS_RW_MODE"@, "READ_WRITE"@),
        ],
        None => seq![],
    };
    let dc = opt_entry("DATA_CACHE_BUCKET"@, opt_view(c.data_cache_bucket));
    let rr = opt_entry("RUNNER_REPO_URL"@, opt_view(c.runner_repo_url));
    let dw = env_downward();
    assert(names_avoid(r1, a, b)) by {
        assert("BASELINE_REF"@.len() != a.len() && "BASELINE_REF"@.len() != b.len());
        if j.baseline_ref is Some {
            assert(r1.len() == 1 && r1[0].0 == "BASELINE_REF"@);
        } else {
            assert(r1.len() == 0);
        }
    }
    assert(names_avoid(r2, a, b)) by {
        assert("CHANGED_REF"@.len() != a.len() && "CHANGED_REF"@.len() != b.len());
        if j.changed_ref is Some {
            assert(r2.len() == 1 && r2[0].0 == "CHANGED_REF"@);
        } else {
            assert(r2.len() == 0);
        }
    }
    assert(names_avoid(bn, a, b)) by {
        assert("BENCH_NAME"@.len() != a.len() && "BENCH_NAME"@.len() != b.len());
        if is_criterion_type(j.job_type@) && benchmarks.len() > 0 {
            assert(bn.len() == 1 && bn[0].0 == "BENCH_NAME"@);
        } else {
            assert(bn.len() == 0);
        }
    }
    assert(names_avoid(sc, a, b)) by {
        assert("SCCACHE_GCS_BUCKET"@.len() != a.len() && "SCCACHE_GCS_BUCKET"@.len() != b.len());
        assert("RUSTC_WRAPPER"@.len() != a.len() && "RUSTC_WRAPPER"@.len() != b.len());
        assert("SCCACHE_GCS_RW_MODE"@.len() != a.len() && "SCCACHE_GCS_RW_MODE"@.len() != b.len());
        if c.sccache_gcs_bucket is Some {
            assert(sc.len() == 3 && sc[0].0 == "SCCACHE_GCS_BUCKET"@ && sc[1].0 == "RUSTC_WRAPPER"@
                && sc[2].0 == "SCCACHE_GCS_RW_MODE"@);
        } else {
            assert(sc.len() == 0);
        }
    }
    assert(names_avoid(dc, a, b)) by {
        assert("DATA_CACHE_BUCKET"@[0] != a[0] && "DATA_CACHE_BUCKET"@.len() != b.len());
        if c.data_cache_bucket is Some {
            assert(dc.len() == 1 && dc[0].0 == "DATA_CACHE_BUCKET"@);
        } else {
            assert(dc.len() == 0);
        }
    }
    assert(names_avoid(rr, a, b)) by {
        assert("RUNNER_REPO_URL"@.len() != a.len() && "RUNNER_REPO_URL"@.len() != b.len());
        if c.runner_repo_url is Some {
            assert(rr.len() == 1 && rr[0].0 == "RUNNER_REPO_URL"@);
        } else {
            assert(rr.len() == 0);
        }
    }
    assert(names_avoid(dw, a, b)) by {
        assert("NODE_NAME"@.len() != a.len() && "NODE_NAME"@.len() != b.len());
        assert("POD_CPU_LIMIT"@.len() != a.len() && "POD_CPU_LIMIT"@.len() != b.len());
        assert("POD_MEM_LIMIT"@.len() != a.len() && "POD_MEM_LIMIT"@.len() != b.len());
        assert(dw.len() == 3 && dw[0].0 == "NODE_NAME"@ && dw[1].0 == "POD_CPU_LIMIT"@ && dw[2].0
            == "POD_MEM_LIMIT"@);
    }
    lemma_names_avoid_concat(r1, r2, a, b);
    lemma_names_avoid_concat(r1 + r2, bn, a, b);
    lemma_names_avoid_concat(sc, dc, a, b);
    lemma_names_avoid_concat(sc + dc, rr, a, b);
    assert(env_services(c) == sc + dc + rr);
    lemma_names_avoid_concat(r1 + r2 + bn, env_services(c), a, b);
    lemma_names_avoid_concat(r1 + r2 + bn + env_services(c), dw, a, b);
}

/// Each side's settings reach the pod under that side's name: the runner
/// environment binds `BASELINE_ENV_VARS` to the job's baseline map and
/// `CHANGED_ENV_VARS` to its changed map, and no later variable of the
/// same name overrides either.
#[verifier::rlimit(40)]
pub proof fn lemma_side_env_vars_follow_job(
    c: Config,
    j: BenchmarkJob,
    token: Seq<char>,
    head_ref: Seq<char>,
    benchmarks: Seq<Seq<char>>,
    shared: Seq<(Seq<char>, Seq<char>)>,
)
    ensures
        ({
            let e = plan_of(c, j, token, head_ref, benchmarks, shared).env;
            &&& exists|i: int|
                0 <= i < e.len() && e[i] == ("BASELINE_ENV_VARS"@, EnvSourceView::Value(
                    j.baseline_env_vars@,
                )) && forall|k: int| i < k < e.len() ==> #[trigger] e[k].0 != "BASELINE_ENV_VARS"@
            &&& exists|i: int|
                0 <= i < e.len() && e[i] == ("CHANGED_ENV_VARS"@, EnvSourceView::Value(
                    j.changed_env_vars@,
                )) && forall|k: int| i < k < e.len() ==> #[trigger] e[k].0 != "CHANGED_ENV_VARS"@
        }),
{
    reveal_strlit("BASELINE_ENV_VARS");
    reveal_strlit("CHANGED_ENV_VARS");
    let a = "BASELINE_ENV_VARS"@;
    let b = "CHANGED_ENV_VARS"@;
    let e = plan_of(c, j, token, head_ref, benchmarks, shared).env;
    assert(e == plan_env(c, j, token, head_ref, benchmarks, shared));
    let hd = if head_ref.len() > 0 {
        seq![val("PR_HEAD_REF"@, head_ref)]
    } else {
        seq![]
    };
    let sh = shared.map_values(|p: (Seq<char>, Seq<char>)| val(p.0, p.1));
    let mid = seq![val(a, j.baseline_env_vars@), val(b, j.changed_env_vars@)];
    let q1 = opt_entry("BASELINE_REF"@, opt_view(j.baseline_ref)) + opt_entry(
        "CHANGED_REF"@,
        opt_view(j.changed_ref),
    ) + (if is_criterion_type(j.job_type@) && benchmarks.len() > 0 {
        seq![val("BENCH_NAME"@, benchmarks[0])]
    } else {
        seq![]
    });
    let q = q1 + env_services(c) + env_downward();
    let base = env_base(c, j, token, benchmarks);
    let p = base + hd + sh;
    lemma_later_names_avoid_side_maps(c, j, benchmarks);
    assert(env_job(j, head_ref, benchmarks, shared) == hd + sh + mid + q1);
    assert(e =~= p + mid + q);
    let i = p.len() as int;
    assert(e[i] == mid[0]);
    assert(e[i + 1] == mid[1]);
    assert(a != b) by {
        assert(a.len() != b.len());
    }
    assert forall|k: int| i < k < e.len() implies #[trigger] e[k].0 != a by {
        if k > i + 1 {
            assert(e[k] == q[k - i - 2]);
        }
    }
    assert forall|k: int| i + 1 < k < e.len() implies #[trigger] e[k].0 != b by {
        assert(e[k] == q[k - i - 2]);
    }
    assert(0 <= i < e.len() && e[i] == (a, EnvSourceView::Value(j.baseline_env_vars@)));
    assert(0 <= i + 1 < e.len() && e[i + 1] == (b, EnvSourceView::Value(j.changed_env_vars@)));
}

} // verus!
