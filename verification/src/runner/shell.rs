//! What the runner's command helpers report: failure messages and the
//! tail of its output log.

use vstd::prelude::*;

use crate::text::{
    chars_of, int_dec, i64_to_string, join, join_strings, line_ranges, lines, push_str,
    range_texts, strings_of_ranges, views,
};

verus! {

/// Path to the shared output log that captures all runner output.
pub const OUTPUT_FILE: &'static str = "/tmp/benchmark_output.txt";

/// The last `n` lines of `content`, joined with `\n`.
pub open spec fn tail_text(content: Seq<char>, n: nat) -> Seq<char> {
    let ls = lines(content);
    join(if ls.len() > n { ls.skip(ls.len() - n) } else { ls }, "\n"@)
}

/// The last `n` lines of the output log's `content`.
pub fn tail_lines(content: &str, n: usize) -> (r: String)
    ensures
        r@ == tail_text(content@, n as nat),
{
    let v = chars_of(content);
    let ranges = line_ranges(&v, 0, v.len());
    proof {
        assert(v@.subrange(0, v@.len() as int) =~= v@);
    }
    let all = strings_of_ranges(&v, &ranges);
    let ghost ls = lines(content@);
    proof {
        assert(views(all@) =~= ls);
    }
    let start = if all.len() > n {
        all.len() - n
    } else {
        0
    };
    let mut kept: Vec<String> = Vec::new();
    let mut k = start;
    while k < all.len()
        invariant
            start <= k <= all@.len(),
            views(all@) == ls,
            views(kept@) == ls.subrange(start as int, k as int),
        decreases all@.len() - k,
    {
        let ghost before = kept@;
        kept.push(all[k].clone());
        proof {
            assert(views(kept@) =~= views(before).push(all@[k as int]@));
            assert(ls.subrange(start as int, k + 1) =~= ls.subrange(start as int, k as int).push(
                ls[k as int],
            ));
        }
        k = k + 1;
    }
    proof {
        assert(ls.subrange(start as int, ls.len() as int) =~= if ls.len() > n {
            ls.skip(ls.len() - n)
        } else {
            ls
        });
        assert(kept@.map_values(|p: String| p@) =~= views(kept@));
    }
    join_strings(&kept, "\n")
}

/// A command line as it is reported: the program, then each argument,
/// separated by spaces.
pub open spec fn command_text(cmd: Seq<char>, args: Seq<Seq<char>>) -> Seq<char> {
    cmd + " "@ + join(args, " "@)
}

fn push_command(s: &mut String, cmd: &str, args: &Vec<String>)
    ensures
        final(s)@ == old(s)@ + command_text(cmd@, views(args@)),
{
    push_str(s, cmd);
    push_str(s, " ");
    let joined = join_strings(args, " ");
    proof {
        assert(args@.map_values(|p: String| p@) =~= views(args@));
    }
    push_str(s, joined.as_str());
    proof {
        assert(s@ =~= old(s)@ + command_text(cmd@, views(args@)));
    }
}

/// The error of a command that exited with `code` (-1 when killed by a
/// signal), with what it printed.
pub fn command_failure_message(
    cmd: &str,
    args: &Vec<String>,
    code: i32,
    stdout: &str,
    stderr: &str,
) -> (r: String)
    ensures
        r@ == command_text(cmd@, views(args@)) + " exited with code "@ + int_dec(code as int)
            + "\nstdout:\n"@ + stdout@ + "\nstderr:\n"@ + stderr@,
{
    let mut s = String::new();
    push_command(&mut s, cmd, args);
    push_str(&mut s, " exited with code ");
    let c = i64_to_string(code as i64);
    push_str(&mut s, c.as_str());
    push_str(&mut s, "\nstdout:\n");
    push_str(&mut s, stdout);
    push_str(&mut s, "\nstderr:\n");
    push_str(&mut s, stderr);
    proof {
        assert(s@ =~= command_text(cmd@, views(args@)) + " exited with code "@ + int_dec(
            code as int,
        ) + "\nstdout:\n"@ + stdout@ + "\nstderr:\n"@ + stderr@);
    }
    s
}

/// The error of a background command that exited with `code`, with its
/// log.
pub fn background_failure_message(cmd: &str, args: &Vec<String>, code: i32, log: &str) -> (r:
    String)
    ensures
        r@ == command_text(cmd@, views(args@)) + " exited with code "@ + int_dec(code as int)
            + "\n"@ + log@,
{
    let mut s = String::new();
    push_command(&mut s, cmd, args);
    push_str(&mut s, " exited with code ");
    let c = i64_to_string(code as i64);
    push_str(&mut s, c.as_str());
    push_str(&mut s, "\n");
    push_str(&mut s, log);
    proof {
        assert(s@ =~= command_text(cmd@, views(args@)) + " exited with code "@ + int_dec(
            code as int,
        ) + "\n"@ + log@);
    }
    s
}

/// The comment posted when a benchmark run fails: the last lines of its
/// output, folded away.
pub open spec fn failure_text(tail: Seq<char>) -> Seq<char> {
    "\u{1f6a8} **Benchmark failed**\n\nLast 20 lines of output:\n<details><summary>Click to expand</summary>\n\n```\n"@
        + tail + "\n```\n\n</details>"@
}

/// The comment posted when a benchmark run fails, around the tail of its
/// output log.
pub fn failure_comment(tail: &str) -> (r: String)
    ensures
        r@ == failure_text(tail@),
{
    let mut s = String::new();
    push_str(
        &mut s,
        "\u{1f6a8} **Benchmark failed**\n\nLast 20 lines of output:\n<details><summary>Click to expand</summary>\n\n```\n",
    );
    push_str(&mut s, tail);
    push_str(&mut s, "\n```\n\n</details>");
    s
}

} // verus!
