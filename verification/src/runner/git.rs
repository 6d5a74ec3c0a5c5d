//! The git operations of the runner: the commands it runs and the names it
//! derives from branches and PR URLs.

use vstd::prelude::*;

use crate::poller::{last_segment, trim_end_char};
use crate::text::{chars_of, push_char, push_str, to_owned_string, u64_to_string, dec};

verus! {

/// `name` with every `/` replaced by `_`.
pub open spec fn branch_baseline_name(name: Seq<char>) -> Seq<char> {
    name.map_values(|c: char| if c == '/' { '_' } else { c })
}

/// Sanitize a branch name for use as a criterion baseline name (replace
/// `/` with `_`).
pub fn sanitize_branch_name(name: &str) -> (r: String)
    ensures
        r@ == branch_baseline_name(name@),
{
    let v = chars_of(name);
    let mut s = String::new();
    let mut k: usize = 0;
    while k < v.len()
        invariant
            0 <= k <= v@.len(),
            v@ == name@,
            s@ == v@.take(k as int).map_values(|c: char| if c == '/' { '_' } else { c }),
        decreases v@.len() - k,
    {
        let c = v[k];
        push_char(&mut s, if c == '/' { '_' } else { c });
        proof {
            assert(v@.take(k + 1).map_values(|c: char| if c == '/' { '_' } else { c }) =~= v@.take(
                k as int,
            ).map_values(|c: char| if c == '/' { '_' } else { c }).push(
                if c == '/' { '_' } else { c },
            ));
        }
        k = k + 1;
    }
    proof {
        assert(v@.take(v@.len() as int) =~= v@);
    }
    s
}

/// A sanitised branch name holds no `/`, and sanitising it again changes
/// nothing.
pub proof fn lemma_baseline_name(name: Seq<char>)
    ensures
        forall|i: int| 0 <= i < name.len() ==> #[trigger] branch_baseline_name(name)[i] != '/',
        branch_baseline_name(branch_baseline_name(name)) == branch_baseline_name(name),
        branch_baseline_name(name).len() == name.len(),
{
    assert(branch_baseline_name(branch_baseline_name(name)) =~= branch_baseline_name(name));
}

/// The arguments of `git clone --depth=<depth> <url> <dest>`.
pub fn clone_args(repo_url: &str, dest: &str, depth: u32) -> (r: Vec<String>)
    ensures
        crate::text::views(r@) == seq![
            "clone"@,
            "--depth="@ + dec(depth as nat),
            repo_url@,
            dest@,
        ],
{
    let mut d = String::new();
    push_str(&mut d, "--depth=");
    let n = u64_to_string(depth as u64);
    push_str(&mut d, n.as_str());
    let mut v: Vec<String> = Vec::new();
    v.push(to_owned_string("clone"));
    v.push(d);
    v.push(to_owned_string(repo_url));
    v.push(to_owned_string(dest));
    proof {
        assert(crate::text::views(v@) =~= seq![
            "clone"@,
            "--depth="@ + dec(depth as nat),
            repo_url@,
            dest@,
        ]);
    }
    v
}

/// The PR number segment of a PR URL, as text.
pub open spec fn pr_segment(pr_url: Seq<char>) -> Seq<char> {
    last_segment(trim_end_char(pr_url, '/'), '/')
}

/// The refspec that fetches a PR's head into the local branch `branch`.
pub open spec fn pr_refspec(pr_url: Seq<char>, branch: Seq<char>) -> Seq<char> {
    "refs/pull/"@ + pr_segment(pr_url) + "/head:"@ + branch
}

/// The refspec `refs/pull/<n>/head:<branch>` for the PR at `pr_url`.
pub fn pr_fetch_refspec(pr_url: &str, branch: &str) -> (r: String)
    ensures
        r@ == pr_refspec(pr_url@, branch@),
{
    let v = chars_of(pr_url);
    let seg = crate::poller::last_segment_text(&v);
    let mut s = String::new();
    push_str(&mut s, "refs/pull/");
    push_str(&mut s, seg.as_str());
    push_str(&mut s, "/head:");
    push_str(&mut s, branch);
    s
}

} // verus!
