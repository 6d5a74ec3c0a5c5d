//! The per-side configuration block that may follow a benchmark trigger.
//!
//! ```yaml
//! env:        {KEY: value, ...}      # shared by both sides
//! baseline:   {ref: <git ref>, env: {KEY: value, ...}}
//! changed:    {ref: <git ref>, env: {KEY: value, ...}}
//! ```
//!
//! The block's text is cut out of the comment by
//! [`crate::benchmarks::config_block`]. Reading YAML into this typed shape
//! (every key optional, any other key an error) is serde's work, done where
//! the comment is fetched; the result arrives here as a [`CommentConfig`]
//! and becomes the request's environment and refs.

use vstd::prelude::*;

use crate::models::{bind_all, keys_distinct, pair_views, EnvVars};

verus! {

pub open spec fn opt_view(s: Option<String>) -> Option<Seq<char>> {
    match s {
        Some(x) => Some(x@),
        None => None,
    }
}

/// One side (`baseline` or `changed`) of a parsed configuration block.
#[derive(Debug)]
pub struct SideConfig {
    /// `ref`: the git ref to build instead of the default.
    pub git_ref: Option<String>,
    /// `env`: the side's variables, in the order the parser gave them.
    pub env: Option<Vec<(String, String)>>,
}

/// A parsed configuration block: the shared `env` and the two sides.
#[derive(Debug)]
pub struct CommentConfig {
    pub env: Option<Vec<(String, String)>>,
    pub baseline: Option<SideConfig>,
    pub changed: Option<SideConfig>,
}

impl CommentConfig {
    /// A block with no keys at all.
    pub fn empty() -> (r: CommentConfig)
        ensures
            r.env is None,
            r.baseline is None,
            r.changed is None,
    {
        CommentConfig { env: None, baseline: None, changed: None }
    }
}

/// Configuration extracted from the comment.
pub struct SectionsView {
    pub shared_env: Seq<(Seq<char>, Seq<char>)>,
    pub baseline_env: Seq<(Seq<char>, Seq<char>)>,
    pub changed_env: Seq<(Seq<char>, Seq<char>)>,
    pub baseline_ref: Option<Seq<char>>,
    pub changed_ref: Option<Seq<char>>,
}

pub open spec fn empty_sections() -> SectionsView {
    SectionsView {
        shared_env: seq![],
        baseline_env: seq![],
        changed_env: seq![],
        baseline_ref: None,
        changed_ref: None,
    }
}

/// The map an optional list of variables makes: absent means empty, and a
/// later binding of a key replaces an earlier one.
pub open spec fn env_of(e: Option<Vec<(String, String)>>) -> Seq<(Seq<char>, Seq<char>)> {
    match e {
        Some(v) => bind_all(seq![], pair_views(v@)),
        None => seq![],
    }
}

pub open spec fn side_env(s: Option<SideConfig>) -> Seq<(Seq<char>, Seq<char>)> {
    match s {
        Some(x) => env_of(x.env),
        None => seq![],
    }
}

pub open spec fn side_ref(s: Option<SideConfig>) -> Option<Seq<char>> {
    match s {
        Some(x) => opt_view(x.git_ref),
        None => None,
    }
}

/// The configuration a parsed block describes.
pub open spec fn config_sections(c: CommentConfig) -> SectionsView {
    SectionsView {
        shared_env: env_of(c.env),
        baseline_env: side_env(c.baseline),
        changed_env: side_env(c.changed),
        baseline_ref: side_ref(c.baseline),
        changed_ref: side_ref(c.changed),
    }
}

/// The configuration extracted from the comment.
#[derive(Debug)]
pub struct Sections {
    pub shared_env: EnvVars,
    pub baseline_env: EnvVars,
    pub changed_env: EnvVars,
    pub baseline_ref: Option<String>,
    pub changed_ref: Option<String>,
}

impl Sections {
    pub open spec fn view(&self) -> SectionsView {
        SectionsView {
            shared_env: self.shared_env@,
            baseline_env: self.baseline_env@,
            changed_env: self.changed_env@,
            baseline_ref: opt_view(self.baseline_ref),
            changed_ref: opt_view(self.changed_ref),
        }
    }

    /// All three environment maps bind each key at most once.
    pub open spec fn wf(&self) -> bool {
        &&& keys_distinct(self.shared_env@)
        &&& keys_distinct(self.baseline_env@)
        &&& keys_distinct(self.changed_env@)
    }

    /// No configuration at all.
    pub fn empty() -> (r: Sections)
        ensures
            r.view() == empty_sections(),
            r.wf(),
    {
        Sections {
            shared_env: EnvVars::new(),
            baseline_env: EnvVars::new(),
            changed_env: EnvVars::new(),
            baseline_ref: None,
            changed_ref: None,
        }
    }
}

fn clone_opt(s: &Option<String>) -> (r: Option<String>)
    ensures
        opt_view(r) == opt_view(*s),
{
    match s {
        Some(x) => Some(x.clone()),
        None => None,
    }
}

/// The map of an optional list of variables.
fn env_exec(e: &Option<Vec<(String, String)>>) -> (r: EnvVars)
    ensures
        r@ == env_of(*e),
        keys_distinct(r@),
{
    let mut m = EnvVars::new();
    match e {
        None => m,
        Some(v) => {
            let ghost all = pair_views(v@);
            let mut k: usize = 0;
            proof {
                assert(all.take(0) =~= Seq::<(Seq<char>, Seq<char>)>::empty());
            }
            while k < v.len()
                invariant
                    0 <= k <= v@.len(),
                    all == pair_views(v@),
                    m@ == bind_all(seq![], all.take(k as int)),
                    keys_distinct(m@),
                decreases v@.len() - k,
            {
                let key = v[k].0.clone();
                let val = v[k].1.clone();
                proof {
                    assert(all.take(k + 1).drop_last() =~= all.take(k as int));
                    assert(all.take(k + 1).last() == all[k as int]);
                    assert(all[k as int] == (v@[k as int].0@, v@[k as int].1@));
                }
                m.insert(key, val);
                k = k + 1;
            }
            proof {
                assert(all.take(v@.len() as int) =~= all);
            }
            m
        },
    }
}

/// The sections a parsed configuration block describes.
pub fn sections_from_config(c: &CommentConfig) -> (r: Sections)
    ensures
        r.view() == config_sections(*c),
        r.wf(),
{
    let shared_env = env_exec(&c.env);
    let (baseline_ref, baseline_env) = match &c.baseline {
        Some(s) => (clone_opt(&s.git_ref), env_exec(&s.env)),
        None => (None, EnvVars::new()),
    };
    let (changed_ref, changed_env) = match &c.changed {
        Some(s) => (clone_opt(&s.git_ref), env_exec(&s.env)),
        None => (None, EnvVars::new()),
    };
    Sections { shared_env, baseline_env, changed_env, baseline_ref, changed_ref }
}

} // verus!
