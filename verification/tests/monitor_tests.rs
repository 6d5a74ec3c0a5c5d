use std::time::Duration;

use benchmark_controller::runner::monitor::{
    format_bytes, format_stats_table, parse_cpu_stat, parse_io_stat, parse_memory_current,
    resource_comment, CpuStat, IoStat, MemoryTally, ResourceStats,
};

fn float_bytes(bytes: u64) -> String {
    let b = bytes as f64;
    let kib = 1024.0;
    let mib = 1024.0 * 1024.0;
    let gib = 1024.0 * 1024.0 * 1024.0;
    if b >= gib {
        format!("{:.1} GiB", b / gib)
    } else if b >= mib {
        format!("{:.1} MiB", b / mib)
    } else if b >= kib {
        format!("{:.1} KiB", b / kib)
    } else {
        format!("{bytes} B")
    }
}

#[test]
fn test_format_bytes_values() {
    assert_eq!(format_bytes(0), "0 B");
    assert_eq!(format_bytes(512), "512 B");
    assert_eq!(format_bytes(1024), "1.0 KiB");
    assert_eq!(format_bytes(1536), "1.5 KiB");
    assert_eq!(format_bytes(1048576), "1.0 MiB");
    assert_eq!(format_bytes(1073741824), "1.0 GiB");
    assert_eq!(format_bytes(1288490189), "1.2 GiB");
}

#[test]
fn test_parse_memory_current() {
    assert_eq!(parse_memory_current("123456789\n"), Some(123456789));
    assert_eq!(parse_memory_current("0\n"), Some(0));
    assert_eq!(parse_memory_current("not_a_number\n"), None);
}

#[test]
fn test_parse_cpu_stat() {
    let content = "\
usage_usec 100000
user_usec 80000
system_usec 20000
nr_periods 0
nr_throttled 0
throttled_usec 0
";
    let stat = parse_cpu_stat(content).unwrap();
    assert_eq!(stat.user_usec, 80000);
    assert_eq!(stat.system_usec, 20000);
}

#[test]
fn test_parse_io_stat() {
    let content = "259:0 rbytes=1048576 wbytes=524288 rios=100 wios=50 dbytes=0 dios=0\n\
                    259:1 rbytes=2097152 wbytes=1048576 rios=200 wios=100 dbytes=0 dios=0\n";
    let stat = parse_io_stat(content).unwrap();
    assert_eq!(stat.read_bytes, 1048576 + 2097152);
    assert_eq!(stat.write_bytes, 524288 + 1048576);
}

#[test]
fn test_parse_io_stat_empty() {
    let stat = parse_io_stat("").unwrap();
    assert_eq!(stat.read_bytes, 0);
    assert_eq!(stat.write_bytes, 0);
}

// ── further cases ───────────────────────────────────────────────────

#[test]
fn format_bytes_matches_float_formatting() {
    let mut samples: Vec<u64> = vec![
        1023, 1024, 1075, 1126, 1177, 1280, 1331, 1382, 1433, 2560, 3584, 10239, 10240,
        1048575, 1048576, 1101004, 1153433, 1205862, 1310720, 1073741823, 1073741824,
        1127428915, 1181116006, 1234803097, 1342177280, 1610612736, 9007199254740991,
        9007199254740993, 9007199254741001, u64::MAX, u64::MAX - 1, 1 << 63, (1 << 63) + 1025,
    ];
    let mut x: u64 = 0x9E37_79B9_7F4A_7C15;
    for _ in 0..2000 {
        x ^= x << 13;
        x ^= x >> 7;
        x ^= x << 17;
        samples.push(x >> (x % 64));
    }
    for k in 0..2000u64 {
        samples.push(1024 * k + 512);
        samples.push(1024 * 1024 * k + 524288);
        samples.push(k * 1073741824 / 20 + 53687091);
    }
    for b in samples {
        assert_eq!(format_bytes(b), float_bytes(b), "bytes = {b}");
    }
}

#[test]
fn cpu_stat_rules() {
    assert!(parse_cpu_stat("user_usec abc\n").is_none());
    let s = parse_cpu_stat("user_usec\nsystem_usec 5 extra\nuser_usec 1\nuser_usec 2\n").unwrap();
    assert_eq!((s.user_usec, s.system_usec), (2, 5));
    let s = parse_cpu_stat("").unwrap();
    assert_eq!((s.user_usec, s.system_usec), (0, 0));
}

#[test]
fn io_stat_ignores_bad_numbers_and_wraps() {
    let s = parse_io_stat("8:0 rbytes=x wbytes=7\n8:1 rbytes=18446744073709551615 rbytes=2").unwrap();
    assert_eq!(s.read_bytes, 1);
    assert_eq!(s.write_bytes, 7);
}

#[test]
fn stats_from_run() {
    let mut t = MemoryTally::new(100);
    t.record(300);
    t.record(50);
    assert_eq!((t.peak, t.sum, t.count), (300, 450, 3));
    let s = ResourceStats::from_run(
        Duration::from_secs(3),
        100,
        &t,
        150,
        Some(CpuStat { user_usec: 10, system_usec: 50 }),
        Some(CpuStat { user_usec: 30, system_usec: 40 }),
        None,
        Some(IoStat { read_bytes: 5, write_bytes: 6 }),
    );
    assert_eq!(s.peak_memory_bytes, 300);
    assert_eq!(s.avg_memory_bytes, 600 / 4);
    assert_eq!(s.sample_count, 4);
    assert_eq!((s.cpu_user_usec, s.cpu_sys_usec), (20, 0));
    assert_eq!((s.io_read_bytes, s.io_write_bytes), (0, 0));
    assert_eq!(s.wall_time, Duration::from_secs(3));
}

#[test]
fn stats_table_and_section() {
    let stats = ResourceStats {
        wall_time: Duration::from_secs_f64(42.3),
        peak_memory_bytes: 1288490189,
        start_memory_bytes: 100_000_000,
        end_memory_bytes: 200_000_000,
        avg_memory_bytes: 858993459,
        cpu_user_usec: 38_100_000,
        cpu_sys_usec: 2_400_000,
        io_read_bytes: 536_870_912,
        io_write_bytes: 12_897_484,
        sample_count: 42,
    };
    let table = format_stats_table(&stats, "42.3", "38.1", "2.4");
    assert!(table.contains("| Wall time | 42.3s |"));
    assert!(table.contains("| Peak memory | 1.2 GiB |"));
    assert!(table.contains("| Avg memory |"));
    assert!(table.contains("| CPU user | 38.1s |"));
    assert!(table.contains("| CPU sys | 2.4s |"));
    assert!(table.contains("| Disk read | 512.0 MiB |"));
    assert!(table.ends_with("| Disk write | 12.3 MiB |"));
    let c = resource_comment("base (merge-base)", &table);
    assert!(c.starts_with("**base (merge-base)**\n| Metric | Value |"));
    assert!(c.ends_with(" |\n"));
}

#[test]
fn tally_peak_is_largest_reading() {
    let readings = [70u64, 900, 20, 899, 5];
    let mut t = MemoryTally::new(80);
    for r in readings {
        t.record(r);
    }
    assert_eq!(t.peak, 900);
    assert_eq!(t.count, 6);
    assert_eq!(t.sum, 80 + 70 + 900 + 20 + 899 + 5);
    let mut low = MemoryTally::new(1000);
    for r in readings {
        low.record(r);
    }
    assert_eq!(low.peak, 1000);
}

#[test]
fn average_is_at_most_peak() {
    let mut t = MemoryTally::new(10);
    t.record(20);
    t.record(30);
    let s = ResourceStats::from_run(Duration::from_secs(1), 10, &t, 40, None, None, None, None);
    assert_eq!(s.avg_memory_bytes, (10 + 20 + 30 + 40) / 4);
    assert_eq!(s.peak_memory_bytes, 40);
    assert!(s.avg_memory_bytes <= s.peak_memory_bytes);
}
