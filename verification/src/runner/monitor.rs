//! Resource statistics of a benchmark run, from cgroup v2 files.
//!
//! The service reads `memory.current`, `cpu.stat` and `io.stat` under
//! `/sys/fs/cgroup/` and samples memory once a second; this module parses
//! those files, keeps the memory tally, computes the statistics of a run
//! and renders byte counts.

use vstd::prelude::*;

use crate::text::{
    all_digits, chars_of, dec, digit_char, first_line, join, lines, line_ranges, parse_u64,
    parse_u64_range, push_char, push_str, range_texts, split_ws, starts_with, trim, trim_bounds,
    u64_to_string, word_ranges,
};

verus! {

// ──────────────────────────── byte counts ─────────────────────────────

/// Significand range of an `f64`: every integer below it is exact.
pub const F64_EXACT: u128 = 0x20_0000_0000_0000;

/// `n / d` rounded to the nearest integer, ties to even.
pub open spec fn round_div_even(n: nat, d: nat) -> nat {
    let q = n / d;
    let r = n % d;
    if 2 * r > d || (2 * r == d && q % 2 == 1) {
        q + 1
    } else {
        q
    }
}

/// The spacing of `f64` values around `b`: the least power of two `u`
/// from `p` on (at most `fuel` doublings) with `b < 2^53 * u`.
pub open spec fn f64_spacing(b: nat, p: nat, fuel: nat) -> nat
    decreases fuel,
{
    if fuel == 0 || b < F64_EXACT * p {
        p
    } else {
        f64_spacing(b, 2 * p, (fuel - 1) as nat)
    }
}

/// The value of `b as f64`: `b` rounded to the nearest multiple of the
/// spacing of `f64` values there, ties to even (exact below 2^53).
pub open spec fn f64_value(b: nat) -> nat {
    let u = f64_spacing(b, 1, 64);
    round_div_even(b, u) * u
}

/// `t` tenths written with one decimal (`{:.1}`).
pub open spec fn tenths_text(t: nat) -> Seq<char> {
    dec(t / 10) + "."@ + seq![digit_char((t % 10) as int)]
}

/// A byte count as a human-readable string: `B` below 1 KiB, otherwise
/// KiB, MiB or GiB with one decimal, the quotient rounded to the nearest
/// tenth, ties to even, as `f64` formatting does (the count itself taken
/// as the nearest `f64`, which only matters from 2^53 on).
pub open spec fn bytes_text(b: nat) -> Seq<char> {
    if b >= 0x4000_0000 {
        tenths_text(round_div_even(f64_value(b) * 10, 0x4000_0000)) + " GiB"@
    } else if b >= 0x10_0000 {
        tenths_text(round_div_even(b * 10, 0x10_0000)) + " MiB"@
    } else if b >= 0x400 {
        tenths_text(round_div_even(b * 10, 0x400)) + " KiB"@
    } else {
        dec(b) + " B"@
    }
}

fn round_div_even_exec(n: u128, d: u128) -> (r: u128)
    requires
        0 < d <= 0x4000_0000,
        n <= 0x1_0000_0000_0000_0000_0000,
    ensures
        r == round_div_even(n as nat, d as nat),
        r <= n / d + 1,
{
    let q = n / d;
    let r = n % d;
    if 2 * r > d || (2 * r == d && q % 2 == 1) {
        q + 1
    } else {
        q
    }
}

fn f64_value_exec(b: u64) -> (r: u128)
    ensures
        r == f64_value(b as nat),
        r <= 0x1_0000_0000_0000_1000,
{
    let mut u: u128 = 1;
    let mut fuel: u64 = 64;
    while fuel > 0 && (b as u128) >= F64_EXACT * u
        invariant
            0 < u < 0x1000,
            fuel <= 64,
            f64_spacing(b as nat, 1, 64) == f64_spacing(b as nat, u as nat, fuel as nat),
        decreases fuel,
    {
        u = 2 * u;
        fuel = fuel - 1;
    }
    let q = round_div_even_exec(b as u128, u);
    proof {
        assert(q * u <= (b as u128 / u + 1) * u) by (nonlinear_arith)
            requires
                q <= b as u128 / u + 1,
                u > 0,
        ;
        assert((b as u128 / u) * u <= b as u128) by (nonlinear_arith)
            requires
                u > 0,
        ;
        assert((b as u128 / u + 1) * u == (b as u128 / u) * u + u) by (nonlinear_arith);
    }
    q * u
}

fn push_tenths(s: &mut String, t: u128)
    requires
        t <= 0xFFFF_FFFF_FFFF_FFFF,
    ensures
        final(s)@ == old(s)@ + tenths_text(t as nat),
{
    let whole = u64_to_string((t / 10) as u64);
    push_str(s, whole.as_str());
    push_char(s, '.');
    let d = (t % 10) as u8;
    let c = (48 + d) as char;
    proof {
        reveal_strlit(".");
        assert(c == digit_char((t % 10) as int));
    }
    push_char(s, c);
    proof {
        assert(s@ =~= old(s)@ + tenths_text(t as nat));
    }
}

/// Format a byte count as a human-readable string.
pub fn format_bytes(bytes: u64) -> (r: String)
    ensures
        r@ == bytes_text(bytes as nat),
{
    let mut s = String::new();
    let b = bytes as u128;
    if bytes >= 0x4000_0000 {
        let x = f64_value_exec(bytes);
        let t = round_div_even_exec(x * 10, 0x4000_0000);
        push_tenths(&mut s, t);
        push_str(&mut s, " GiB");
    } else if bytes >= 0x10_0000 {
        let t = round_div_even_exec(b * 10, 0x10_0000);
        push_tenths(&mut s, t);
        push_str(&mut s, " MiB");
    } else if bytes >= 0x400 {
        let t = round_div_even_exec(b * 10, 0x400);
        push_tenths(&mut s, t);
        push_str(&mut s, " KiB");
    } else {
        let n = u64_to_string(bytes);
        push_str(&mut s, n.as_str());
        push_str(&mut s, " B");
    }
    proof {
        assert(s@ =~= bytes_text(bytes as nat));
    }
    s
}

/// Below 2^53 a byte count is its own `f64` value.
pub proof fn lemma_small_counts_exact(b: nat)
    requires
        b < F64_EXACT,
    ensures
        f64_value(b) == b,
{
    assert(f64_spacing(b, 1, 64) == 1);
    assert(b / 1 == b && b % 1 == 0) by (nonlinear_arith);
}

// ─────────────────────────── cgroup files ─────────────────────────────

/// The value of `memory.current`.
pub open spec fn memory_current_of(content: Seq<char>) -> Option<u64> {
    parse_u64(trim(content))
}

/// Parse the content of `memory.current`.
pub fn parse_memory_current(content: &str) -> (r: Option<u64>)
    ensures
        r == memory_current_of(content@),
{
    let v = chars_of(content);
    let (a, b) = trim_bounds(&v, 0, v.len());
    proof {
        assert(v@.subrange(0, v@.len() as int) =~= v@);
    }
    parse_u64_range(&v, a, b)
}

/// CPU time used, from `cpu.stat`.
#[derive(Debug, Clone, Copy)]
pub struct CpuStat {
    pub user_usec: u64,
    pub system_usec: u64,
}

/// Bytes read and written, from `io.stat`.
#[derive(Debug, Clone, Copy)]
pub struct IoStat {
    pub read_bytes: u64,
    pub write_bytes: u64,
}

/// `cpu.stat` after `ls`: the last `user_usec` and `system_usec` values,
/// 0 for one that is absent; a line of those keys whose value is no
/// number spoils all. Lines with fewer than two words are skipped.
pub open spec fn cpu_stat_of(ls: Seq<Seq<char>>) -> Option<(u64, u64)>
    decreases ls.len(),
{
    if ls.len() == 0 {
        Some((0, 0))
    } else {
        match cpu_stat_of(ls.drop_last()) {
            None => None,
            Some((user, sys)) => {
                let w = split_ws(ls.last());
                if w.len() < 2 {
                    Some((user, sys))
                } else if w[0] == "user_usec"@ {
                    match parse_u64(w[1]) {
                        Some(n) => Some((n, sys)),
                        None => None,
                    }
                } else if w[0] == "system_usec"@ {
                    match parse_u64(w[1]) {
                        Some(n) => Some((user, n)),
                        None => None,
                    }
                } else {
                    Some((user, sys))
                }
            },
        }
    }
}

proof fn lemma_cpu_stat_spoiled(a: Seq<Seq<char>>, b: Seq<Seq<char>>)
    requires
        cpu_stat_of(a) is None,
    ensures
        cpu_stat_of(a + b) is None,
    decreases b.len(),
{
    if b.len() == 0 {
        assert(a + b =~= a);
    } else {
        lemma_cpu_stat_spoiled(a, b.drop_last());
        assert((a + b).drop_last() =~= a + b.drop_last());
    }
}

/// Parse the content of `cpu.stat`.
pub fn parse_cpu_stat(content: &str) -> (r: Option<CpuStat>)
    ensures
        match cpu_stat_of(lines(content@)) {
            Some((u, s)) => r matches Some(c) && c.user_usec == u && c.system_usec == s,
            None => r is None,
        },
{
    let v = chars_of(content);
    let ranges = line_ranges(&v, 0, v.len());
    let ghost ls = lines(content@);
    proof {
        assert(v@.subrange(0, v@.len() as int) =~= v@);
        assert(range_texts(v@, ranges@) == ls);
        assert(ls.take(0) =~= Seq::<Seq<char>>::empty());
    }
    let user_key = chars_of("user_usec");
    let sys_key = chars_of("system_usec");
    let mut user: u64 = 0;
    let mut sys: u64 = 0;
    let mut k: usize = 0;
    while k < ranges.len()
        invariant
            0 <= k <= ranges@.len(),
            ls == range_texts(v@, ranges@),
            ls == lines(content@),
            crate::text::ranges_within(ranges@, 0, v@.len() as int),
            user_key@ == "user_usec"@,
            sys_key@ == "system_usec"@,
            cpu_stat_of(ls.take(k as int)) == Some((user, sys)),
        decreases ranges@.len() - k,
    {
        let (a, b) = ranges[k];
        let words = word_ranges(&v, a, b);
        proof {
            assert(ls.take(k + 1).drop_last() =~= ls.take(k as int));
            assert(ls.take(k + 1).last() == v@.subrange(a as int, b as int));
        }
        if words.len() >= 2 {
            let (ka, kb) = words[0];
            let (va, vb) = words[1];
            proof {
                assert(range_texts(v@, words@)[0] == v@.subrange(ka as int, kb as int));
                assert(range_texts(v@, words@)[1] == v@.subrange(va as int, vb as int));
            }
            if crate::text::range_eq(&v, ka, kb, &user_key) {
                match parse_u64_range(&v, va, vb) {
                    Some(n) => {
                        user = n;
                    },
                    None => {
                        proof {
                            let w = split_ws(ls.take(k + 1).last());
                            assert(w == range_texts(v@, words@));
                            assert(w[1] == v@.subrange(va as int, vb as int));
                            assert(cpu_stat_of(ls.take(k + 1)) is None);
                            assert(ls.take(k + 1) + ls.skip(k + 1) =~= ls);
                            lemma_cpu_stat_spoiled(ls.take(k + 1), ls.skip(k + 1));
                        }
                        return None;
                    },
                }
            } else if crate::text::range_eq(&v, ka, kb, &sys_key) {
                match parse_u64_range(&v, va, vb) {
                    Some(n) => {
                        sys = n;
                    },
                    None => {
                        proof {
                            let w = split_ws(ls.take(k + 1).last());
                            assert(w == range_texts(v@, words@));
                            assert(w[1] == v@.subrange(va as int, vb as int));
                            assert(cpu_stat_of(ls.take(k + 1)) is None);
                            assert(ls.take(k + 1) + ls.skip(k + 1) =~= ls);
                            lemma_cpu_stat_spoiled(ls.take(k + 1), ls.skip(k + 1));
                        }
                        return None;
                    },
                }
            }
        }
        k = k + 1;
    }
    proof {
        assert(ls.take(ranges@.len() as int) =~= ls);
    }
    Some(CpuStat { user_usec: user, system_usec: sys })
}

/// What a field of `io.stat` adds to the count of `prefix` (`rbytes=` or
/// `wbytes=`): its number, or 0 when it is none.
pub open spec fn field_amount(field: Seq<char>, prefix: Seq<char>) -> nat {
    if starts_with(field, prefix) {
        match parse_u64(field.skip(prefix.len() as int)) {
            Some(n) => n as nat,
            None => 0,
        }
    } else {
        0
    }
}

/// The sum of the amounts of `prefix` over `fields`.
pub open spec fn fields_total(fields: Seq<Seq<char>>, prefix: Seq<char>) -> nat
    decreases fields.len(),
{
    if fields.len() == 0 {
        0
    } else {
        fields_total(fields.drop_last(), prefix) + field_amount(fields.last(), prefix)
    }
}

/// The words of all lines of `io.stat`, in order.
pub open spec fn io_fields(ls: Seq<Seq<char>>) -> Seq<Seq<char>>
    decreases ls.len(),
{
    if ls.len() == 0 {
        seq![]
    } else {
        io_fields(ls.drop_last()) + split_ws(ls.last())
    }
}

/// `io.stat`: the `rbytes=` and `wbytes=` amounts of all devices, summed
/// with `u64` wrap-around.
pub open spec fn io_stat_of(content: Seq<char>) -> (u64, u64) {
    let f = io_fields(lines(content));
    (
        (fields_total(f, "rbytes="@) % 0x1_0000_0000_0000_0000) as u64,
        (fields_total(f, "wbytes="@) % 0x1_0000_0000_0000_0000) as u64,
    )
}

fn field_amount_exec(v: &Vec<char>, a: usize, b: usize, p: &Vec<char>) -> (r: u64)
    requires
        a <= b <= v@.len(),
    ensures
        r as nat == field_amount(v@.subrange(a as int, b as int), p@),
{
    if crate::text::range_starts_with(v, a, b, p) {
        proof {
            assert(v@.subrange(a as int, b as int).skip(p@.len() as int) =~= v@.subrange(
                a + p@.len(),
                b as int,
            ));
        }
        match parse_u64_range(v, a + p.len(), b) {
            Some(n) => n,
            None => 0,
        }
    } else {
        0
    }
}

proof fn lemma_wrap_add(x: nat, y: nat)
    ensures
        ((x % 0x1_0000_0000_0000_0000) as u64 as nat + y) % 0x1_0000_0000_0000_0000 == (x + y)
            % 0x1_0000_0000_0000_0000,
{
    assert(((x % 0x1_0000_0000_0000_0000) + y) % 0x1_0000_0000_0000_0000 == (x + y)
        % 0x1_0000_0000_0000_0000) by (nonlinear_arith);
}

/// Parse the content of `io.stat`.
pub fn parse_io_stat(content: &str) -> (r: Option<IoStat>)
    ensures
        r matches Some(s) && (s.read_bytes, s.write_bytes) == io_stat_of(content@),
{
    let v = chars_of(content);
    let ranges = line_ranges(&v, 0, v.len());
    let ghost ls = lines(content@);
    proof {
        assert(v@.subrange(0, v@.len() as int) =~= v@);
        assert(range_texts(v@, ranges@) == ls);
        assert(ls.take(0) =~= Seq::<Seq<char>>::empty());
    }
    let rp = chars_of("rbytes=");
    let wp = chars_of("wbytes=");
    let mut read: u64 = 0;
    let mut write: u64 = 0;
    let mut k: usize = 0;
    while k < ranges.len()
        invariant
            0 <= k <= ranges@.len(),
            ls == range_texts(v@, ranges@),
            ls == lines(content@),
            crate::text::ranges_within(ranges@, 0, v@.len() as int),
            rp@ == "rbytes="@,
            wp@ == "wbytes="@,
            read as nat == fields_total(io_fields(ls.take(k as int)), "rbytes="@)
                % 0x1_0000_0000_0000_0000,
            write as nat == fields_total(io_fields(ls.take(k as int)), "wbytes="@)
                % 0x1_0000_0000_0000_0000,
        decreases ranges@.len() - k,
    {
        let (a, b) = ranges[k];
        let words = word_ranges(&v, a, b);
        let ghost before = io_fields(ls.take(k as int));
        let ghost w = range_texts(v@, words@);
        proof {
            assert(ls.take(k + 1).drop_last() =~= ls.take(k as int));
            assert(ls.take(k + 1).last() == v@.subrange(a as int, b as int));
            assert(io_fields(ls.take(k + 1)) == before + w);
            assert(w.take(0) =~= Seq::<Seq<char>>::empty());
            assert(before + w.take(0) =~= before);
        }
        let mut j: usize = 0;
        while j < words.len()
            invariant
                0 <= j <= words@.len(),
                w == range_texts(v@, words@),
                crate::text::ranges_within(words@, 0, v@.len() as int),
                rp@ == "rbytes="@,
                wp@ == "wbytes="@,
                read as nat == fields_total(before + w.take(j as int), "rbytes="@)
                    % 0x1_0000_0000_0000_0000,
                write as nat == fields_total(before + w.take(j as int), "wbytes="@)
                    % 0x1_0000_0000_0000_0000,
            decreases words@.len() - j,
        {
            let (fa, fb) = words[j];
            let x = field_amount_exec(&v, fa, fb, &rp);
            let y = field_amount_exec(&v, fa, fb, &wp);
            proof {
                let f = before + w.take(j + 1);
                assert(f.drop_last() =~= before + w.take(j as int));
                assert(f.last() == v@.subrange(fa as int, fb as int));
                lemma_wrap_add(fields_total(before + w.take(j as int), "rbytes="@), x as nat);
                lemma_wrap_add(fields_total(before + w.take(j as int), "wbytes="@), y as nat);
            }
            read = read.wrapping_add(x);
            write = write.wrapping_add(y);
            j = j + 1;
        }
        proof {
            assert(w.take(words@.len() as int) =~= w);
        }
        k = k + 1;
    }
    proof {
        assert(ls.take(ranges@.len() as int) =~= ls);
    }
    Some(IoStat { read_bytes: read, write_bytes: write })
}


// ───────────────────────────── statistics ─────────────────────────────

/// Resource usage statistics captured during a benchmark run.
#[derive(Debug, Clone, Copy)]
pub struct ResourceStats {
    pub wall_time: std::time::Duration,
    pub peak_memory_bytes: u64,
    pub start_memory_bytes: u64,
    pub end_memory_bytes: u64,
    pub avg_memory_bytes: u64,
    pub cpu_user_usec: u64,
    pub cpu_sys_usec: u64,
    pub io_read_bytes: u64,
    pub io_write_bytes: u64,
    pub sample_count: u32,
}

/// `x + y` with `u64` wrap-around, as the sampler's atomic counters and
/// the release build's additions do.
pub open spec fn wrap_add(x: u64, y: u64) -> u64 {
    ((x + y) % 0x1_0000_0000_0000_0000) as u64
}

/// The memory samples of a run: their peak, their sum and their number.
#[derive(Debug, Clone, Copy)]
pub struct MemoryTally {
    pub peak: u64,
    pub sum: u64,
    pub count: u64,
}

impl MemoryTally {
    /// The tally of the reading taken when monitoring starts.
    pub fn new(start_memory: u64) -> (r: MemoryTally)
        ensures
            r.peak == start_memory,
            r.sum == start_memory,
            r.count == 1,
    {
        MemoryTally { peak: start_memory, sum: start_memory, count: 1 }
    }

    /// Add the reading `current`.
    pub fn record(&mut self, current: u64)
        ensures
            *final(self) == tally_after(*old(self), seq![current]),
            final(self).peak == if current > old(self).peak {
                current
            } else {
                old(self).peak
            },
            final(self).sum == wrap_add(old(self).sum, current),
            final(self).count == wrap_add(old(self).count, 1),
    {
        proof {
            assert(seq![current].drop_last() =~= Seq::<u64>::empty());
            reveal_with_fuel(tally_after, 2);
        }
        if current > self.peak {
            self.peak = current;
        }
        self.sum = self.sum.wrapping_add(current);
        self.count = self.count.wrapping_add(1);
    }
}

/// How much a counter grew between two readings; 0 if it went down.
pub open spec fn growth(start: u64, end: u64) -> u64 {
    if end >= start {
        (end - start) as u64
    } else {
        0
    }
}

/// The CPU time of a run, when both readings exist.
pub open spec fn cpu_used(start: Option<CpuStat>, end: Option<CpuStat>) -> (u64, u64) {
    match (start, end) {
        (Some(s), Some(e)) => (growth(s.user_usec, e.user_usec), growth(s.system_usec, e.system_usec)),
        _ => (0, 0),
    }
}

/// The disk traffic of a run, when both readings exist.
pub open spec fn io_used(start: Option<IoStat>, end: Option<IoStat>) -> (u64, u64) {
    match (start, end) {
        (Some(s), Some(e)) => (growth(s.read_bytes, e.read_bytes), growth(s.write_bytes, e.write_bytes)),
        _ => (0, 0),
    }
}

/// The peak of a run: the tally's peak or the final reading.
pub open spec fn run_peak(tally: MemoryTally, end_memory: u64) -> u64 {
    if end_memory > tally.peak {
        end_memory
    } else {
        tally.peak
    }
}

/// The average of a run: the tally's sum with the final reading over the
/// number of readings, in the sampler's wrapping `u64` arithmetic.
pub open spec fn run_average(tally: MemoryTally, end_memory: u64) -> u64 {
    if wrap_add(tally.count, 1) > 0 {
        (wrap_add(tally.sum, end_memory) / wrap_add(tally.count, 1)) as u64
    } else {
        0
    }
}

/// The sum of the readings.
pub open spec fn reading_sum(readings: Seq<u64>) -> int
    decreases readings.len(),
{
    if readings.len() == 0 {
        0
    } else {
        reading_sum(readings.drop_last()) + readings.last()
    }
}

proof fn lemma_tally_exact(start: u64, readings: Seq<u64>)
    requires
        start + reading_sum(readings) < 0x1_0000_0000_0000_0000,
        readings.len() + 1 < 0x1_0000_0000_0000_0000,
    ensures
        reading_sum(readings) >= 0,
        tally_after(MemoryTally { peak: start, sum: start, count: 1 }, readings).sum == start
            + reading_sum(readings),
        tally_after(MemoryTally { peak: start, sum: start, count: 1 }, readings).count
            == readings.len() + 1,
        tally_after(MemoryTally { peak: start, sum: start, count: 1 }, readings).sum
            <= tally_after(MemoryTally { peak: start, sum: start, count: 1 }, readings).count
            * tally_after(MemoryTally { peak: start, sum: start, count: 1 }, readings).peak,
    decreases readings.len(),
{
    let t0 = MemoryTally { peak: start, sum: start, count: 1 };
    if readings.len() > 0 {
        let front = readings.drop_last();
        lemma_tally_exact(start, front);
        let b = tally_after(t0, front);
        let a = tally_after(t0, readings);
        let cur = readings.last();
        assert(a.sum == b.sum + cur);
        assert(a.count == b.count + 1);
        let (bs, bc, bp, ap): (int, int, int, int) = (b.sum as int, b.count as int, b.peak as int, a.peak as int);
        assert(bs + cur <= (bc + 1) * ap) by (nonlinear_arith)
            requires
                bs <= bc * bp,
                bp <= ap,
                cur <= ap,
                bc >= 0,
        ;
    } else {
        assert(start <= 1 * start);
    }
}

/// Over a run whose readings add up within a `u64`, the average memory is
/// the sum of all readings (first, sampled and final) over their number,
/// and it is at most the peak.
pub proof fn lemma_average_at_most_peak(start: u64, readings: Seq<u64>, end_memory: u64)
    requires
        start + reading_sum(readings) + end_memory < 0x1_0000_0000_0000_0000,
        readings.len() + 2 < 0x1_0000_0000_0000_0000,
    ensures
        ({
            let t = tally_after(MemoryTally { peak: start, sum: start, count: 1 }, readings);
            &&& run_average(t, end_memory) == (start + reading_sum(readings) + end_memory) / (
            readings.len() + 2) as int
            &&& run_average(t, end_memory) <= run_peak(t, end_memory)
        }),
{
    lemma_tally_exact(start, readings);
    let t = tally_after(MemoryTally { peak: start, sum: start, count: 1 }, readings);
    let total: int = t.sum + end_memory;
    let n: int = t.count + 1;
    let p: int = run_peak(t, end_memory) as int;
    assert(wrap_add(t.sum, end_memory) == total);
    assert(wrap_add(t.count, 1) == n);
    assert(total <= n * p) by (nonlinear_arith)
        requires
            t.sum <= t.count * t.peak,
            t.peak <= p,
            end_memory <= p,
            t.count >= 0,
            total == t.sum + end_memory,
            n == t.count + 1,
    ;
    assert(total / n <= p) by (nonlinear_arith)
        requires
            total <= n * p,
            n > 0,
            total >= 0,
    ;
}

impl ResourceStats {
    /// The statistics of a run that took `wall_time`: the memory tally
    /// closed with the final reading, and the CPU time and disk traffic
    /// between the first and last readings.
    pub fn from_run(
        wall_time: std::time::Duration,
        start_memory: u64,
        tally: &MemoryTally,
        end_memory: u64,
        start_cpu: Option<CpuStat>,
        end_cpu: Option<CpuStat>,
        start_io: Option<IoStat>,
        end_io: Option<IoStat>,
    ) -> (r: ResourceStats)
        ensures
            r.wall_time == wall_time,
            r.peak_memory_bytes == run_peak(*tally, end_memory),
            r.start_memory_bytes == start_memory,
            r.end_memory_bytes == end_memory,
            r.avg_memory_bytes == run_average(*tally, end_memory),
            (r.cpu_user_usec, r.cpu_sys_usec) == cpu_used(start_cpu, end_cpu),
            (r.io_read_bytes, r.io_write_bytes) == io_used(start_io, end_io),
            r.sample_count == wrap_add(tally.count, 1) as u32,
    {
        let peak = if end_memory > tally.peak {
            end_memory
        } else {
            tally.peak
        };
        let total_sum = tally.sum.wrapping_add(end_memory);
        let total_count = tally.count.wrapping_add(1);
        assert(total_sum == wrap_add(tally.sum, end_memory));
        assert(total_count == wrap_add(tally.count, 1));
        let avg = if total_count > 0 {
            total_sum / total_count
        } else {
            0
        };
        let (cpu_user, cpu_sys) = match (start_cpu, end_cpu) {
            (Some(s), Some(e)) => (
                e.user_usec.saturating_sub(s.user_usec),
                e.system_usec.saturating_sub(s.system_usec),
            ),
            _ => (0, 0),
        };
        let (io_read, io_write) = match (start_io, end_io) {
            (Some(s), Some(e)) => (
                e.read_bytes.saturating_sub(s.read_bytes),
                e.write_bytes.saturating_sub(s.write_bytes),
            ),
            _ => (0, 0),
        };
        ResourceStats {
            wall_time,
            peak_memory_bytes: peak,
            start_memory_bytes: start_memory,
            end_memory_bytes: end_memory,
            avg_memory_bytes: avg,
            cpu_user_usec: cpu_user,
            cpu_sys_usec: cpu_sys,
            io_read_bytes: io_read,
            io_write_bytes: io_write,
            sample_count: total_count as u32,
        }
    }
}

/// The tally after the readings `readings`, taken in order, were added to `t`.
pub open spec fn tally_after(t: MemoryTally, readings: Seq<u64>) -> MemoryTally
    decreases readings.len(),
{
    if readings.len() == 0 {
        t
    } else {
        let before = tally_after(t, readings.drop_last());
        let current = readings.last();
        MemoryTally {
            peak: if current > before.peak {
                current
            } else {
                before.peak
            },
            sum: wrap_add(before.sum, current),
            count: wrap_add(before.count, 1),
        }
    }
}

/// Over any run, the peak of the tally is the largest reading: it is at
/// least the first reading and every later one, and it is one of them.
/// The count is the number of readings while it fits in a `u64`.
pub proof fn lemma_peak_is_max(start: u64, readings: Seq<u64>)
    ensures
        tally_after(MemoryTally { peak: start, sum: start, count: 1 }, readings).peak >= start,
        forall|i: int|
            0 <= i < readings.len() ==> tally_after(
                MemoryTally { peak: start, sum: start, count: 1 },
                readings,
            ).peak >= #[trigger] readings[i],
        tally_after(MemoryTally { peak: start, sum: start, count: 1 }, readings).peak == start
            || exists|i: int|
            0 <= i < readings.len() && tally_after(
                MemoryTally { peak: start, sum: start, count: 1 },
                readings,
            ).peak == #[trigger] readings[i],
        readings.len() + 1 < 0x1_0000_0000_0000_0000 ==> tally_after(
            MemoryTally { peak: start, sum: start, count: 1 },
            readings,
        ).count == readings.len() + 1,
    decreases readings.len(),
{
    let t0 = MemoryTally { peak: start, sum: start, count: 1 };
    if readings.len() > 0 {
        let front = readings.drop_last();
        lemma_peak_is_max(start, front);
        let before = tally_after(t0, front);
        let after = tally_after(t0, readings);
        assert forall|i: int| 0 <= i < readings.len() implies after.peak >= #[trigger] readings[i] by {
            if i < readings.len() - 1 {
                assert(readings[i] == front[i]);
            }
        }
        if after.peak != start && after.peak != readings.last() {
            assert(after.peak == before.peak);
            let k = choose|k: int| 0 <= k < front.len() && before.peak == #[trigger] front[k];
            assert(readings[k] == front[k]);
        }
        if after.peak == readings.last() {
            assert(readings[readings.len() - 1] == readings.last());
        }
    }
}

/// The statistics table of a run (`Display` of the stats), given the
/// renderings with one decimal of its wall time and CPU seconds.
pub open spec fn stats_table(
    s: ResourceStats,
    wall_secs: Seq<char>,
    user_secs: Seq<char>,
    sys_secs: Seq<char>,
) -> Seq<char> {
    "| Metric | Value |\n|--------|-------|\n| Wall time | "@ + wall_secs + "s |\n| Peak memory | "@
        + bytes_text(s.peak_memory_bytes as nat) + " |\n| Avg memory | "@ + bytes_text(
        s.avg_memory_bytes as nat,
    ) + " |\n| CPU user | "@ + user_secs + "s |\n| CPU sys | "@ + sys_secs
        + "s |\n| Disk read | "@ + bytes_text(s.io_read_bytes as nat) + " |\n| Disk write | "@
        + bytes_text(s.io_write_bytes as nat) + " |"@
}

/// Render the statistics table of a run. The seconds are rendered by the
/// caller (`{:.1}` of the wall time and of the CPU microseconds in
/// seconds), since they are floating-point values.
pub fn format_stats_table(
    stats: &ResourceStats,
    wall_secs: &str,
    user_secs: &str,
    sys_secs: &str,
) -> (r: String)
    ensures
        r@ == stats_table(*stats, wall_secs@, user_secs@, sys_secs@),
{
    let mut s = String::new();
    push_str(&mut s, "| Metric | Value |\n|--------|-------|\n| Wall time | ");
    push_str(&mut s, wall_secs);
    push_str(&mut s, "s |\n| Peak memory | ");
    let peak = format_bytes(stats.peak_memory_bytes);
    push_str(&mut s, peak.as_str());
    push_str(&mut s, " |\n| Avg memory | ");
    let avg = format_bytes(stats.avg_memory_bytes);
    push_str(&mut s, avg.as_str());
    push_str(&mut s, " |\n| CPU user | ");
    push_str(&mut s, user_secs);
    push_str(&mut s, "s |\n| CPU sys | ");
    push_str(&mut s, sys_secs);
    push_str(&mut s, "s |\n| Disk read | ");
    let rd = format_bytes(stats.io_read_bytes);
    push_str(&mut s, rd.as_str());
    push_str(&mut s, " |\n| Disk write | ");
    let wr = format_bytes(stats.io_write_bytes);
    push_str(&mut s, wr.as_str());
    push_str(&mut s, " |");
    proof {
        assert(s@ =~= stats_table(*stats, wall_secs@, user_secs@, sys_secs@));
    }
    s
}

/// A resource section of a PR comment: the bold label, then the table.
pub fn resource_comment(label: &str, table: &str) -> (r: String)
    ensures
        r@ == "**"@ + label@ + "**\n"@ + table@ + "\n"@,
{
    let mut s = String::new();
    push_str(&mut s, "**");
    push_str(&mut s, label);
    push_str(&mut s, "**\n");
    push_str(&mut s, table);
    push_str(&mut s, "\n");
    s
}

} // verus!
