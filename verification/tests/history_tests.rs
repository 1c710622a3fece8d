use sysprobe::float::{Float32, Float64};
use sysprobe::history::{parse_window, snapshots_since, HistoryBuffer};
use sysprobe::ui::table::{format_bytes, render_history_table};
use sysprobe::snapshot::{
    CpuInfo, DiskInfo, MemoryInfo, NetworkInfo, ProcessInfo, SystemSnapshot, Timestamp,
};
use sysprobe::ui::sparkline::cpu_sparkline_data;

fn pct(value: f32) -> Float32 {
    Float32::from_bits(value.to_bits())
}

fn floats(values: Vec<Float32>) -> Vec<f32> {
    values.into_iter().map(|v| f32::from_bits(v.bits)).collect()
}

fn snapshot(cpu_percent: f32) -> SystemSnapshot {
    let at = chrono::Utc::now();
    SystemSnapshot {
        timestamp: Timestamp::from_parts(at.timestamp(), at.timestamp_subsec_nanos()).unwrap(),
        cpu: CpuInfo {
            global_usage_percent: pct(cpu_percent),
            per_core_usage_percent: vec![pct(cpu_percent)],
            load_avg_1: Float64::from_bits(0.0f64.to_bits()),
        },
        memory: MemoryInfo {
            total_bytes: 100,
            used_bytes: cpu_percent as u64,
            used_percent: pct(cpu_percent * 2.0),
            swap_used_bytes: 0,
        },
        disks: vec![DiskInfo {
            mount_point: "/".to_owned(),
            total_bytes: 100,
            used_bytes: cpu_percent as u64,
            used_percent: pct(cpu_percent),
        }],
        network: NetworkInfo {
            rx_bytes_per_sec: (cpu_percent * 10.0) as u64,
            tx_bytes_per_sec: (cpu_percent * 20.0) as u64,
            active_connections: 0,
        },
        top_processes: vec![ProcessInfo {
            pid: 1,
            name: "test".to_owned(),
            cpu_percent: pct(cpu_percent),
            memory_bytes: 1,
        }],
    }
}

#[test]
fn evicts_oldest_snapshot_when_capacity_is_exceeded() {
    let mut history = HistoryBuffer::new(2);

    history.push(snapshot(10.0));
    history.push(snapshot(20.0));
    history.push(snapshot(30.0));

    assert_eq!(history.len(), 2);
    assert_eq!(floats(history.cpu_history()), vec![20.0, 30.0]);
}

#[test]
fn returns_last_n_points_for_metrics() {
    let mut history = HistoryBuffer::new(4);

    history.push(snapshot(10.0));
    history.push(snapshot(20.0));
    history.push(snapshot(30.0));

    assert_eq!(floats(history.cpu_history_last(2)), vec![20.0, 30.0]);
    assert_eq!(floats(history.memory_history_last(2)), vec![40.0, 60.0]);
    assert_eq!(history.network_rx_history_last(2), vec![200, 300]);
    assert_eq!(history.network_tx_history_last(2), vec![400, 600]);
}

#[test]
fn zero_capacity_buffer_keeps_no_snapshots() {
    let mut history = HistoryBuffer::new(0);

    history.push(snapshot(10.0));

    assert!(history.is_empty());
    assert_eq!(floats(history.cpu_history()), Vec::<f32>::new());
}

#[test]
fn keeps_the_newest_capacity_samples_in_order() {
    let mut history = HistoryBuffer::new(3);
    for i in 0..10 {
        history.push(snapshot(i as f32));
        assert!(history.len() <= 3);
    }
    assert_eq!(floats(history.cpu_history()), vec![7.0, 8.0, 9.0]);
    assert_eq!(history.snapshots().len(), 3);
}

#[test]
fn asking_for_more_points_than_held_gives_all() {
    let mut history = HistoryBuffer::new(5);
    history.push(snapshot(1.0));
    history.push(snapshot(2.0));
    assert_eq!(floats(history.cpu_history_last(10)), vec![1.0, 2.0]);
    assert_eq!(history.network_rx_history(), vec![10, 20]);
    assert_eq!(history.network_tx_history(), vec![20, 40]);
    assert_eq!(floats(history.memory_history()), vec![2.0, 4.0]);
    assert_eq!(history.cpu_history_last(0), Vec::<Float32>::new());
}

#[test]
fn sparkline_points_are_clamped_and_rounded() {
    let mut history = HistoryBuffer::new(8);
    for value in [-5.0, 0.4, 0.5, 49.5, 99.6, 100.0, 250.0, f32::NAN] {
        history.push(snapshot(value));
    }
    assert_eq!(cpu_sparkline_data(&history), vec![0, 0, 1, 50, 100, 100, 100, 0]);
}

#[test]
fn sparkline_points_match_float_rounding() {
    let mut values = vec![
        f32::INFINITY,
        f32::NEG_INFINITY,
        -0.0,
        0.0,
        f32::MIN_POSITIVE,
        1.0e-40,
        2.5,
        3.5,
        99.49999,
        100.00001,
        f32::MAX,
    ];
    for i in 0..2000 {
        values.push(i as f32 * 0.0625 - 10.0);
        values.push(i as f32 * 0.173);
    }
    for value in values {
        let mut history = HistoryBuffer::new(1);
        history.push(snapshot(value));
        let expected = value.clamp(0.0, 100.0).round() as u64;
        assert_eq!(cpu_sparkline_data(&history), vec![expected], "value {value}");
    }
}

#[test]
fn history_windows_parse() {
    assert_eq!(parse_window("1h"), Some(3600));
    assert_eq!(parse_window("30s"), Some(30));
    assert_eq!(parse_window("5m"), Some(300));
    assert_eq!(parse_window("2d"), Some(172800));
    assert_eq!(parse_window("45"), Some(45));
    assert_eq!(parse_window("h"), None);
    assert_eq!(parse_window(""), None);
    assert_eq!(parse_window("1x"), None);
    assert_eq!(parse_window("-1h"), None);
    assert_eq!(parse_window("18446744073709551615"), Some(u64::MAX));
    assert_eq!(parse_window("18446744073709551616"), None);
    assert_eq!(parse_window("18446744073709551615m"), None);
}

#[test]
fn samples_within_the_window_are_kept_in_order() {
    let mut snapshots = Vec::new();
    for (i, at) in [100i64, 150, 200, 250].iter().enumerate() {
        let mut s = snapshot(i as f32);
        s.timestamp = Timestamp::from_parts(*at, 0).unwrap();
        snapshots.push(s);
    }
    let kept = snapshots_since(snapshots, 260, 100);
    let times: Vec<i64> = kept.iter().map(|s| s.timestamp.seconds()).collect();
    assert_eq!(times, vec![200, 250]);
}

#[test]
fn history_report_layout() {
    let mut s = snapshot(12.5);
    s.timestamp = Timestamp::from_parts(1_700_000_000, 0).unwrap();
    let text = render_history_table(&[s.clone()], "1h");
    let at = chrono::DateTime::from_timestamp(1_700_000_000, 0).unwrap();
    let expected = format!(
        "sysprobe history (last 1h, 1 samples)\n  {:<34} {:>8} {:>8} {:>12} {:>12}\n  {:<34} {:>7.1}% {:>7.1}% {:>12} {:>12}\n",
        "timestamp", "cpu %", "mem %", "rx/s", "tx/s",
        at.to_string(), 12.5f32, 25.0f32, format_bytes(125), format_bytes(250)
    );
    assert_eq!(text, expected);
}

#[test]
fn cloned_history_holds_the_same_samples() {
    let mut history = HistoryBuffer::new(2);
    history.push(snapshot(1.0));
    history.push(snapshot(2.0));
    let copy = history.clone();
    assert_eq!(copy.len(), 2);
    assert_eq!(floats(copy.cpu_history()), vec![1.0, 2.0]);
}
