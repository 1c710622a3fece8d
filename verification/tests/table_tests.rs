use sysprobe::float::{push_one_decimal, Float32, Float64};
use sysprobe::snapshot::{
    CpuInfo, DiskInfo, MemoryInfo, NetworkInfo, ProcessInfo, SystemSnapshot, Timestamp,
};
use sysprobe::ui::table::{format_bytes, render_process_table, render_snapshot_table, truncate};

fn pct(value: f32) -> Float32 {
    Float32::from_bits(value.to_bits())
}

fn reference_format_bytes(bytes: u64) -> String {
    const UNITS: [&str; 5] = ["B", "KiB", "MiB", "GiB", "TiB"];
    let mut size = bytes as f64;
    let mut unit = UNITS[0];

    for next_unit in UNITS.iter().skip(1) {
        if size < 1024.0 {
            break;
        }
        size /= 1024.0;
        unit = next_unit;
    }

    if unit == UNITS[0] {
        format!("{bytes} {unit}")
    } else {
        format!("{size:.1} {unit}")
    }
}

fn one_decimal(value: f32) -> String {
    let mut out = String::new();
    push_one_decimal(&mut out, pct(value));
    out
}

#[test]
fn format_bytes_examples() {
    assert_eq!(format_bytes(0), "0 B");
    assert_eq!(format_bytes(1023), "1023 B");
    assert_eq!(format_bytes(1024), "1.0 KiB");
    assert_eq!(format_bytes(1536), "1.5 KiB");
    assert_eq!(format_bytes(1280), reference_format_bytes(1280));
    assert_eq!(format_bytes(1024 * 1024), "1.0 MiB");
    assert_eq!(format_bytes(5 * 1024 * 1024 * 1024), "5.0 GiB");
    assert_eq!(format_bytes(3 << 40), "3.0 TiB");
    assert_eq!(format_bytes(1 << 60), "1048576.0 TiB");
}

#[test]
fn format_bytes_matches_float_formatting() {
    let mut samples: Vec<u64> = vec![u64::MAX, u64::MAX - 1, (1 << 53) + 1, (1 << 53) + 3, 1 << 63];
    let mut x: u64 = 0x9e37_79b9_7f4a_7c15;
    for shift in 0..64 {
        samples.push(1u64 << shift);
        samples.push((1u64 << shift).wrapping_sub(1));
        samples.push((1u64 << shift) + (1u64 << shift) / 2);
    }
    for i in 0..20_000u64 {
        x = x.wrapping_mul(6364136223846793005).wrapping_add(1442695040888963407);
        samples.push(x >> (i % 64));
        samples.push(i * 1024 + (i % 1024));
        samples.push(i * 256);
    }
    for bytes in samples {
        assert_eq!(format_bytes(bytes), reference_format_bytes(bytes), "bytes {bytes}");
    }
}

#[test]
fn one_decimal_matches_float_formatting() {
    let mut values = vec![
        0.0,
        -0.0,
        0.25,
        0.35,
        0.05,
        -0.04,
        83.0,
        99.95,
        f32::NAN,
        -f32::NAN,
        f32::INFINITY,
        f32::NEG_INFINITY,
        f32::MAX,
        f32::MIN,
        f32::MIN_POSITIVE,
        1.0e-45,
        16777216.0,
        1.0e30,
    ];
    let mut bits: u32 = 12345;
    for _ in 0..50_000 {
        bits = bits.wrapping_mul(1664525).wrapping_add(1013904223);
        values.push(f32::from_bits(bits));
    }
    for i in 0..4000 {
        values.push(i as f32 * 0.025);
        values.push(i as f32 * 0.05 - 100.0);
    }
    for value in values {
        assert_eq!(one_decimal(value), format!("{value:.1}"), "value bits {:#x}", value.to_bits());
    }
}

#[test]
fn truncate_counts_characters() {
    assert_eq!(truncate("hello", 3), "hel");
    assert_eq!(truncate("hello", 5), "hello");
    assert_eq!(truncate("héllo wörld", 7), "héllo w");
    assert_eq!(truncate("", 0), "");
}

fn reference_process_table(processes: &[ProcessInfo], title: &str) -> String {
    let mut output = String::new();
    output.push_str(title);
    output.push('\n');
    output.push_str(&format!(
        "  {:>8}  {:<28} {:>8} {:>12}\n",
        "pid", "name", "cpu %", "memory"
    ));
    for process in processes {
        let name: String = process.name.chars().take(28).collect();
        output.push_str(&format!(
            "  {:>8}  {:<28} {:>7.1}% {:>12}\n",
            process.pid,
            name,
            f32::from_bits(process.cpu_percent.bits),
            reference_format_bytes(process.memory_bytes)
        ));
    }
    output
}

fn processes() -> Vec<ProcessInfo> {
    vec![
        ProcessInfo {
            pid: 4242,
            name: "a-very-long-process-name-that-goes-past-the-column".to_owned(),
            cpu_percent: pct(12.34),
            memory_bytes: 123_456_789,
        },
        ProcessInfo {
            pid: 1,
            name: "init".to_owned(),
            cpu_percent: pct(0.0),
            memory_bytes: 512,
        },
    ]
}

#[test]
fn process_table_layout() {
    let procs = processes();
    assert_eq!(
        render_process_table(&procs, "top processes"),
        reference_process_table(&procs, "top processes")
    );
    assert_eq!(
        render_process_table(&[], "none"),
        "none\n       pid  name                            cpu %       memory\n"
    );
}

#[test]
fn snapshot_table_layout() {
    let at = chrono::DateTime::from_timestamp(1_700_000_000, 250_000_000).unwrap();
    let snapshot = SystemSnapshot {
        timestamp: Timestamp::from_parts(at.timestamp(), at.timestamp_subsec_nanos()).unwrap(),
        cpu: CpuInfo {
            global_usage_percent: pct(37.25),
            per_core_usage_percent: vec![pct(37.25)],
            load_avg_1: Float64::from_bits(1.5f64.to_bits()),
        },
        memory: MemoryInfo {
            total_bytes: 16 << 30,
            used_bytes: 6 << 30,
            used_percent: pct(37.5),
            swap_used_bytes: 0,
        },
        disks: vec![DiskInfo {
            mount_point: "/".to_owned(),
            total_bytes: 500 << 30,
            used_bytes: 123 << 30,
            used_percent: pct(24.6),
        }],
        network: NetworkInfo {
            rx_bytes_per_sec: 2048,
            tx_bytes_per_sec: 100,
            active_connections: 7,
        },
        top_processes: processes(),
    };
    let mut expected = String::new();
    expected.push_str("sysprobe snapshot\n");
    expected.push_str(&format!("timestamp: {}\n\n", at));
    expected.push_str("system\n");
    expected.push_str(&format!("  {:<18} {:>10.1}%\n", "cpu", 37.25f32));
    expected.push_str(&format!(
        "  {:<18} {:>10.1}% ({}/{})\n",
        "memory",
        37.5f32,
        reference_format_bytes(6 << 30),
        reference_format_bytes(16 << 30)
    ));
    expected.push_str(&format!(
        "  {:<18} rx {:>10}/s  tx {:>10}/s  connections {:>4}\n\n",
        "network",
        reference_format_bytes(2048),
        reference_format_bytes(100),
        7
    ));
    expected.push_str("disks\n");
    expected.push_str(&format!(
        "  {:<32} {:>12} {:>12} {:>8}\n",
        "mount", "used", "total", "used %"
    ));
    expected.push_str(&format!(
        "  {:<32} {:>12} {:>12} {:>7.1}%\n",
        "/",
        reference_format_bytes(123 << 30),
        reference_format_bytes(500 << 30),
        24.6f32
    ));
    expected.push('\n');
    expected.push_str(&reference_process_table(&processes(), "top processes"));
    assert_eq!(render_snapshot_table(&snapshot), expected);
}

#[test]
fn timestamp_round_trips_and_displays_like_chrono() {
    let at = chrono::DateTime::from_timestamp(1_234_567_890, 5).unwrap();
    let t = Timestamp::from_parts(1_234_567_890, 5).unwrap();
    assert_eq!(t.seconds(), 1_234_567_890);
    assert_eq!(t.nanoseconds(), 5);
    assert_eq!(t.display(), at.to_string());
    assert!(Timestamp::from_parts(i64::MAX, 0).is_none());
    assert!(Timestamp::from_parts(0, 2_000_000_000).is_none());
}

#[test]
fn instants_exist_exactly_in_chronos_range() {
    let cases: [(i64, u32, bool); 10] = [
        (8_210_266_876_799, 0, true),
        (8_210_266_876_800, 0, false),
        (-8_334_601_228_800, 0, true),
        (-8_334_601_228_801, 0, false),
        (59, 1_500_000_000, true),
        (58, 1_500_000_000, false),
        (-1, 1_999_999_999, true),
        (-1, 2_000_000_000, false),
        (0, 999_999_999, true),
        (0, 1_000_000_000, false),
    ];
    for (seconds, nanos, exists) in cases {
        assert_eq!(Timestamp::from_parts(seconds, nanos).is_some(), exists, "{seconds} {nanos}");
        assert_eq!(chrono::DateTime::from_timestamp(seconds, nanos).is_some(), exists);
    }
}
