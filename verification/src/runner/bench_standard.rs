//! The standard (`bench.sh`) benchmark run: the commands it runs for each
//! benchmark on both sides, and the comments it posts.

use vstd::prelude::*;

use crate::runner::bench_criterion::{
    lscpu_block, push_head, push_lscpu_block, push_result_blocks, result_blocks,
};
use crate::text::{push_str, to_owned_string, views};

verus! {

/// The `dfbench tpch` arguments and result file of a TPC-H benchmark, by
/// scale factor and whether the data is held in memory.
pub open spec fn tpch_args_of(sf: Seq<char>, in_mem: bool) -> (Seq<Seq<char>>, Seq<char>) {
    (
        seq![
            "tpch"@,
            "--iterations"@,
            "5"@,
            "--scale-factor"@,
            sf,
            "--format"@,
            "parquet"@,
            "--prefer_hash_join"@,
            "true"@,
        ] + if in_mem {
            seq!["-m"@]
        } else {
            seq![]
        },
        if in_mem {
            "tpch_mem_sf"@ + sf + ".json"@
        } else {
            "tpch_sf"@ + sf + ".json"@
        },
    )
}

/// The TPC-H variants run directly with `dfbench`: `tpch`, `tpch10`,
/// `tpch_mem` and `tpch_mem10`.
pub open spec fn tpch_direct_of(bench: Seq<char>) -> Option<(Seq<Seq<char>>, Seq<char>)> {
    if bench == "tpch"@ {
        Some(tpch_args_of("1"@, false))
    } else if bench == "tpch10"@ {
        Some(tpch_args_of("10"@, false))
    } else if bench == "tpch_mem"@ {
        Some(tpch_args_of("1"@, true))
    } else if bench == "tpch_mem10"@ {
        Some(tpch_args_of("10"@, true))
    } else {
        None
    }
}

fn tpch_args(sf: &str, in_mem: bool) -> (r: (Vec<String>, String))
    ensures
        (views(r.0@), r.1@) == tpch_args_of(sf@, in_mem),
{
    let mut args: Vec<String> = Vec::new();
    args.push(to_owned_string("tpch"));
    args.push(to_owned_string("--iterations"));
    args.push(to_owned_string("5"));
    args.push(to_owned_string("--scale-factor"));
    args.push(to_owned_string(sf));
    args.push(to_owned_string("--format"));
    args.push(to_owned_string("parquet"));
    args.push(to_owned_string("--prefer_hash_join"));
    args.push(to_owned_string("true"));
    if in_mem {
        args.push(to_owned_string("-m"));
    }
    let mut file = String::new();
    if in_mem {
        push_str(&mut file, "tpch_mem_sf");
    } else {
        push_str(&mut file, "tpch_sf");
    }
    push_str(&mut file, sf);
    push_str(&mut file, ".json");
    proof {
        assert(views(args@) =~= tpch_args_of(sf@, in_mem).0);
        assert(file@ =~= tpch_args_of(sf@, in_mem).1);
    }
    (args, file)
}

/// Map a TPC-H bench name to (dfbench tpch args, results JSON filename).
/// Returns `None` for non-TPC-H benchmarks.
pub fn tpch_direct_args(bench: &str) -> (r: Option<(Vec<String>, String)>)
    ensures
        match tpch_direct_of(bench@) {
            Some((a, f)) => r matches Some((x, y)) && views(x@) == a && y@ == f,
            None => r is None,
        },
{
    if crate::text::str_eq(bench, "tpch") {
        Some(tpch_args("1", false))
    } else if crate::text::str_eq(bench, "tpch10") {
        Some(tpch_args("10", false))
    } else if crate::text::str_eq(bench, "tpch_mem") {
        Some(tpch_args("1", true))
    } else if crate::text::str_eq(bench, "tpch_mem10") {
        Some(tpch_args("10", true))
    } else {
        None
    }
}

/// The argument after the first `--scale-factor` in `args`.
pub open spec fn scale_factor_in(args: Seq<Seq<char>>) -> Option<Seq<char>>
    decreases args.len(),
{
    if args.len() == 0 {
        None
    } else if args[0] == "--scale-factor"@ {
        if args.len() >= 2 {
            Some(args[1])
        } else {
            None
        }
    } else {
        scale_factor_in(args.drop_first())
    }
}

/// The scale factor named in `dfbench tpch` arguments.
pub fn scale_factor_arg(args: &Vec<String>) -> (r: Option<String>)
    ensures
        crate::yaml::opt_view(r) == scale_factor_in(views(args@)),
{
    let ghost a = views(args@);
    let mut k: usize = 0;
    proof {
        assert(a.skip(0) =~= a);
    }
    while k < args.len()
        invariant
            0 <= k <= args@.len(),
            a == views(args@),
            scale_factor_in(a) == scale_factor_in(a.skip(k as int)),
        decreases args@.len() - k,
    {
        proof {
            assert(a.skip(k as int)[0] == args@[k as int]@);
            assert(a.skip(k as int).drop_first() =~= a.skip(k + 1));
        }
        if crate::text::str_eq(args[k].as_str(), "--scale-factor") {
            if k + 1 < args.len() {
                proof {
                    assert(a.skip(k as int)[1] == args@[k + 1]@);
                }
                return Some(args[k + 1].clone());
            }
            return None;
        }
        k = k + 1;
    }
    None
}

fn push_all(v: &mut Vec<String>, items: &[String])
    ensures
        views(final(v)@) == views(old(v)@) + views(items@),
{
    let ghost start = views(v@);
    let mut k: usize = 0;
    while k < items.len()
        invariant
            0 <= k <= items@.len(),
            views(v@) == start + views(items@).take(k as int),
        decreases items@.len() - k,
    {
        let ghost before = v@;
        v.push(items[k].clone());
        proof {
            assert(views(v@) =~= views(before).push(items@[k as int]@));
            assert(views(items@).take(k + 1) =~= views(items@).take(k as int).push(
                items@[k as int]@,
            ));
        }
        k = k + 1;
    }
    proof {
        assert(views(items@).take(items@.len() as int) =~= views(items@));
    }
}

fn push_string(v: &mut Vec<String>, x: String)
    ensures
        views(final(v)@) == views(old(v)@).push(x@),
{
    let ghost before = v@;
    v.push(x);
    proof {
        assert(views(v@) =~= views(before).push(x@));
    }
}

fn assignment(key: &str, value: &str) -> (r: String)
    ensures
        r@ == key@ + value@,
{
    let mut s = String::new();
    push_str(&mut s, key);
    push_str(&mut s, value);
    s
}

/// The `env` arguments that run `bench.sh run <bench>` for one side.
pub open spec fn bench_sh_args_of(
    bench: Seq<char>,
    side_dir: Seq<char>,
    results_name: Seq<char>,
    spill_dir: Seq<char>,
    extra_env: Seq<Seq<char>>,
) -> Seq<Seq<char>> {
    seq![
        "DATAFUSION_DIR="@ + side_dir,
        "RESULTS_NAME="@ + results_name,
        "DATAFUSION_RUNTIME_TEMP_DIRECTORY="@ + spill_dir,
    ] + extra_env + seq!["./bench.sh"@, "run"@, bench]
}

/// The `env` arguments of a `bench.sh` run of `bench` against the checkout
/// `side_dir`, saving results as `results_name` and spilling to
/// `spill_dir`, with the side's extra environment.
pub fn bench_sh_args(
    bench: &str,
    side_dir: &str,
    results_name: &str,
    spill_dir: &str,
    extra_env: &[String],
) -> (r: Vec<String>)
    ensures
        views(r@) == bench_sh_args_of(bench@, side_dir@, results_name@, spill_dir@, views(extra_env@)),
{
    let mut v: Vec<String> = Vec::new();
    push_string(&mut v, assignment("DATAFUSION_DIR=", side_dir));
    push_string(&mut v, assignment("RESULTS_NAME=", results_name));
    push_string(&mut v, assignment("DATAFUSION_RUNTIME_TEMP_DIRECTORY=", spill_dir));
    let ghost g1 = views(v@);
    proof {
        assert(g1 =~= seq![
            "DATAFUSION_DIR="@ + side_dir@,
            "RESULTS_NAME="@ + results_name@,
            "DATAFUSION_RUNTIME_TEMP_DIRECTORY="@ + spill_dir@,
        ]);
    }
    push_all(&mut v, extra_env);
    let ghost g2 = views(v@);
    push_string(&mut v, to_owned_string("./bench.sh"));
    push_string(&mut v, to_owned_string("run"));
    push_string(&mut v, to_owned_string(bench));
    proof {
        assert(views(v@) =~= g2 + seq!["./bench.sh"@, "run"@, bench@]);
        assert(views(v@) =~= bench_sh_args_of(
            bench@,
            side_dir@,
            results_name@,
            spill_dir@,
            views(extra_env@),
        ));
    }
    v
}

/// The `env` arguments that run `dfbench` directly for a TPC-H benchmark.
pub open spec fn tpch_env_args_of(
    spill_dir: Seq<char>,
    extra_env: Seq<Seq<char>>,
    dfbench: Seq<char>,
    tpch_args: Seq<Seq<char>>,
    data_path: Seq<char>,
    results_file: Seq<char>,
) -> Seq<Seq<char>> {
    seq!["DATAFUSION_RUNTIME_TEMP_DIRECTORY="@ + spill_dir] + extra_env + seq![dfbench] + tpch_args
        + seq!["--path"@, data_path, "-o"@, results_file]
}

/// The `env` arguments of a direct `dfbench` TPC-H run: spill directory,
/// the side's extra environment, the binary and its arguments, the data
/// and the results file.
pub fn tpch_env_args(
    spill_dir: &str,
    extra_env: &[String],
    dfbench: &str,
    tpch_args: &[String],
    data_path: &str,
    results_file: &str,
) -> (r: Vec<String>)
    ensures
        views(r@) == tpch_env_args_of(
            spill_dir@,
            views(extra_env@),
            dfbench@,
            views(tpch_args@),
            data_path@,
            results_file@,
        ),
{
    let mut v: Vec<String> = Vec::new();
    push_string(&mut v, assignment("DATAFUSION_RUNTIME_TEMP_DIRECTORY=", spill_dir));
    proof {
        assert(views(v@) =~= seq!["DATAFUSION_RUNTIME_TEMP_DIRECTORY="@ + spill_dir@]);
    }
    push_all(&mut v, extra_env);
    push_string(&mut v, to_owned_string(dfbench));
    push_all(&mut v, tpch_args);
    let ghost g3 = views(v@);
    push_string(&mut v, to_owned_string("--path"));
    push_string(&mut v, to_owned_string(data_path));
    push_string(&mut v, to_owned_string("-o"));
    push_string(&mut v, to_owned_string(results_file));
    proof {
        assert(views(v@) =~= g3 + seq!["--path"@, data_path@, "-o"@, results_file@]);
        assert(views(v@) =~= tpch_env_args_of(
            spill_dir@,
            views(extra_env@),
            dfbench@,
            views(tpch_args@),
            data_path@,
            results_file@,
        ));
    }
    v
}

/// The resource section: each benchmark's table on the base side, then on
/// the branch side, each under its label and followed by a blank line.
pub open spec fn resource_section_of(
    base: Seq<(Seq<char>, Seq<char>)>,
    branch: Seq<(Seq<char>, Seq<char>)>,
) -> Seq<char> {
    labelled_tables(base, " \u{2014} base (merge-base)"@) + labelled_tables(branch, " \u{2014} branch"@)
}

/// `**<bench><suffix>**\n<table>\n\n` for each `(bench, table)`.
pub open spec fn labelled_tables(tables: Seq<(Seq<char>, Seq<char>)>, suffix: Seq<char>) -> Seq<char>
    decreases tables.len(),
{
    if tables.len() == 0 {
        seq![]
    } else {
        labelled_tables(tables.drop_last(), suffix) + "**"@ + tables.last().0 + suffix + "**\n"@
            + tables.last().1 + "\n\n"@
    }
}

fn push_labelled_tables(s: &mut String, tables: &[(String, String)], suffix: &str)
    ensures
        final(s)@ == old(s)@ + labelled_tables(crate::models::pair_views(tables@), suffix@),
{
    let ghost t = crate::models::pair_views(tables@);
    let ghost start = s@;
    let mut k: usize = 0;
    proof {
        assert(t.take(0) =~= Seq::<(Seq<char>, Seq<char>)>::empty());
        assert(start + Seq::<char>::empty() =~= start);
    }
    while k < tables.len()
        invariant
            0 <= k <= tables@.len(),
            t == crate::models::pair_views(tables@),
            s@ == start + labelled_tables(t.take(k as int), suffix@),
        decreases tables@.len() - k,
    {
        let ghost before = s@;
        push_str(s, "**");
        push_str(s, tables[k].0.as_str());
        push_str(s, suffix);
        push_str(s, "**\n");
        push_str(s, tables[k].1.as_str());
        push_str(s, "\n\n");
        proof {
            assert(t.take(k + 1).drop_last() =~= t.take(k as int));
            assert(t.take(k + 1).last() == (tables@[k as int].0@, tables@[k as int].1@));
            assert(s@ =~= start + labelled_tables(t.take(k + 1), suffix@));
        }
        k = k + 1;
    }
    proof {
        assert(t.take(tables@.len() as int) =~= t);
    }
}

/// Build the resource usage section from each benchmark's rendered
/// statistics table, base side first.
pub fn format_resource_section(base_tables: &[(String, String)], branch_tables: &[(String, String)]) -> (r:
    String)
    ensures
        r@ == resource_section_of(
            crate::models::pair_views(base_tables@),
            crate::models::pair_views(branch_tables@),
        ),
{
    let mut s = String::new();
    push_labelled_tables(&mut s, base_tables, " \u{2014} base (merge-base)");
    push_labelled_tables(&mut s, branch_tables, " \u{2014} branch");
    proof {
        assert(s@ =~= resource_section_of(
            crate::models::pair_views(base_tables@),
            crate::models::pair_views(branch_tables@),
        ));
    }
    s
}

/// The result comment of a standard comparison.
pub open spec fn standard_result_text(
    comment_url: Seq<char>,
    report: Seq<char>,
    resource_section: Seq<char>,
    instance_type: Seq<char>,
    pod_resources: Seq<char>,
    lscpu: Seq<char>,
    footer: Seq<char>,
) -> Seq<char> {
    "\u{1f916} Benchmark completed (GKE)"@ + " | [trigger]("@ + comment_url
        + ")\n\n**Instance:** `"@ + instance_type + "` ("@ + pod_resources + ")\n\n"@
        + lscpu_block(lscpu) + result_blocks(report, resource_section, footer)
}

/// Format the result comment body.
pub fn format_result_comment(
    comment_url: &str,
    report: &str,
    resource_section: &str,
    instance_type: &str,
    pod_resources: &str,
    lscpu: &str,
    footer: &str,
) -> (r: String)
    ensures
        r@ == standard_result_text(
            comment_url@,
            report@,
            resource_section@,
            instance_type@,
            pod_resources@,
            lscpu@,
            footer@,
        ),
{
    let mut s = String::new();
    push_head(&mut s, "\u{1f916} Benchmark completed (GKE)", comment_url, instance_type, pod_resources);
    push_lscpu_block(&mut s, lscpu);
    push_result_blocks(&mut s, report, resource_section, footer);
    proof {
        assert(s@ =~= standard_result_text(
            comment_url@,
            report@,
            resource_section@,
            instance_type@,
            pod_resources@,
            lscpu@,
            footer@,
        ));
    }
    s
}

/// The "running" comment of a standard comparison.
pub open spec fn standard_running_text(
    comment_url: Seq<char>,
    instance_type: Seq<char>,
    pod_resources: Seq<char>,
    uname: Seq<char>,
    lscpu: Seq<char>,
    changed_display: Seq<char>,
    changed_sha: Seq<char>,
    baseline_label: Seq<char>,
    repo: Seq<char>,
    base_sha: Seq<char>,
    benchmarks: Seq<char>,
    footer: Seq<char>,
) -> Seq<char> {
    "\u{1f916} Benchmark running (GKE) | [trigger]("@ + comment_url + ")\n**Instance:** `"@
        + instance_type + "` ("@ + pod_resources + ") | `"@ + uname + "`\n"@ + lscpu_block(lscpu)
        + "Comparing "@ + changed_display + " ("@ + changed_sha + ") to "@ + baseline_label
        + " [diff](https://github.com/"@ + repo + "/compare/"@ + base_sha + ".."@ + changed_sha
        + ") using: "@ + benchmarks + "\nResults will be posted here when complete"@ + footer
}

/// The comment posted when a standard comparison starts.
pub fn standard_running_comment(
    comment_url: &str,
    instance_type: &str,
    pod_resources: &str,
    uname: &str,
    lscpu: &str,
    changed_display: &str,
    changed_sha: &str,
    baseline_label: &str,
    repo: &str,
    base_sha: &str,
    benchmarks: &str,
    footer: &str,
) -> (r: String)
    ensures
        r@ == standard_running_text(
            comment_url@,
            instance_type@,
            pod_resources@,
            uname@,
            lscpu@,
            changed_display@,
            changed_sha@,
            baseline_label@,
            repo@,
            base_sha@,
            benchmarks@,
            footer@,
        ),
{
    let mut s = String::new();
    push_str(&mut s, "\u{1f916} Benchmark running (GKE) | [trigger](");
    push_str(&mut s, comment_url);
    push_str(&mut s, ")\n**Instance:** `");
    push_str(&mut s, instance_type);
    push_str(&mut s, "` (");
    push_str(&mut s, pod_resources);
    push_str(&mut s, ") | `");
    push_str(&mut s, uname);
    push_str(&mut s, "`\n");
    push_lscpu_block(&mut s, lscpu);
    push_str(&mut s, "Comparing ");
    push_str(&mut s, changed_display);
    push_str(&mut s, " (");
    push_str(&mut s, changed_sha);
    push_str(&mut s, ") to ");
    push_str(&mut s, baseline_label);
    push_str(&mut s, " [diff](https://github.com/");
    push_str(&mut s, repo);
    push_str(&mut s, "/compare/");
    push_str(&mut s, base_sha);
    push_str(&mut s, "..");
    push_str(&mut s, changed_sha);
    push_str(&mut s, ") using: ");
    push_str(&mut s, benchmarks);
    push_str(&mut s, "\nResults will be posted here when complete");
    push_str(&mut s, footer);
    proof {
        assert(s@ =~= standard_running_text(
            comment_url@,
            instance_type@,
            pod_resources@,
            uname@,
            lscpu@,
            changed_display@,
            changed_sha@,
            baseline_label@,
            repo@,
            base_sha@,
            benchmarks@,
            footer@,
        ));
    }
    s
}

} // verus!
