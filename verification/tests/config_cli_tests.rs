use sysprobe::alert::MetricKind;
use sysprobe::cli::{Cli, Command, SnapshotArgs, TopArgs, TopSortKey, WatchArgs};
use sysprobe::config::{default_history_output_path, default_recovery_margin_percent, Config};
use sysprobe::daemon::{alert_rules_from_config, refresh_interval_secs, DaemonState};
use sysprobe::float::Float32;
use sysprobe::ui::dashboard::is_quit_key;

fn as_f32(value: Float32) -> f32 {
    f32::from_bits(value.bits)
}

#[test]
fn default_settings() {
    let config = Config::default();
    assert_eq!(config.general.refresh_interval_secs, 2);
    assert_eq!(config.general.history_capacity, 120);
    assert_eq!(as_f32(config.alerts.cpu_percent_max), 90.0);
    assert_eq!(as_f32(config.alerts.mem_percent_max), 90.0);
    assert_eq!(as_f32(config.alerts.disk_percent_max), 95.0);
    assert_eq!(config.alerts.sustained_ticks, 3);
    assert_eq!(as_f32(config.alerts.recovery_margin_percent), 5.0);
    assert_eq!(config.export.json_output_path, "./sysprobe_snapshot.json");
    assert_eq!(config.export.history_output_path, "./sysprobe_history.json");
    assert_eq!(as_f32(default_recovery_margin_percent()), 5.0);
    assert_eq!(default_history_output_path(), "./sysprobe_history.json");
}

#[test]
fn rules_follow_the_settings() {
    let config = Config::default();
    let recovery = |v: f32| Float32::from_bits(v.to_bits());
    let rules = alert_rules_from_config(&config, recovery(85.0), recovery(84.0), recovery(90.0));
    let names: Vec<_> = rules.iter().map(|r| r.name.as_str()).collect();
    assert_eq!(names, vec!["cpu-high", "memory-high", "root-disk-high"]);
    assert!(matches!(rules[0].metric, MetricKind::Cpu));
    assert!(matches!(rules[1].metric, MetricKind::Memory));
    assert!(matches!(&rules[2].metric, MetricKind::Disk(m) if m == "/"));
    assert_eq!(as_f32(rules[2].threshold_percent), 95.0);
    assert_eq!(as_f32(rules[1].recovery_threshold_percent), 84.0);
    assert!(rules.iter().all(|r| r.sustained_ticks == 3));
}

#[test]
fn no_subcommand_means_a_snapshot() {
    let command = Cli { command: None, json: true }.into_command();
    assert!(matches!(command, Command::Snapshot(SnapshotArgs { json: true })));
    let command = Cli { command: Some(Command::Snapshot(SnapshotArgs { json: false })), json: true }
        .into_command();
    assert!(matches!(command, Command::Snapshot(SnapshotArgs { json: true })));
    let command = Cli { command: Some(Command::Watch(WatchArgs { interval: 7 })), json: true }
        .into_command();
    assert!(matches!(command, Command::Watch(WatchArgs { interval: 7 })));
    let command = Cli {
        command: Some(Command::Top(TopArgs { by: TopSortKey::Memory, limit: 3 })),
        json: false,
    }
    .into_command();
    assert!(matches!(command, Command::Top(TopArgs { by: TopSortKey::Memory, limit: 3 })));
}

#[test]
fn daemon_state_keeps_history_and_alerts() {
    let mut config = Config::default();
    config.general.history_capacity = 2;
    config.alerts.sustained_ticks = 1;
    let recovery = Float32::from_bits(80.0f32.to_bits());
    let rules = alert_rules_from_config(&config, recovery, recovery, recovery);
    let mut state = DaemonState::new(&config, rules);
    assert_eq!(refresh_interval_secs(&config), 2);
    config.general.refresh_interval_secs = 0;
    assert_eq!(refresh_interval_secs(&config), 1);
    for cpu in [10.0f32, 95.0, 20.0] {
        let at = chrono::Utc::now();
        let snapshot = sysprobe::snapshot::SystemSnapshot {
            timestamp: sysprobe::snapshot::Timestamp::from_parts(at.timestamp(), at.timestamp_subsec_nanos()).unwrap(),
            cpu: sysprobe::snapshot::CpuInfo {
                global_usage_percent: Float32::from_bits(cpu.to_bits()),
                per_core_usage_percent: vec![],
                load_avg_1: sysprobe::float::Float64::from_bits(0),
            },
            memory: sysprobe::snapshot::MemoryInfo {
                total_bytes: 1,
                used_bytes: 0,
                used_percent: Float32::from_bits(0),
                swap_used_bytes: 0,
            },
            disks: vec![],
            network: sysprobe::snapshot::NetworkInfo {
                rx_bytes_per_sec: 0,
                tx_bytes_per_sec: 0,
                active_connections: 0,
            },
            top_processes: vec![],
        };
        let events = state.on_snapshot(snapshot).unwrap();
        assert_eq!(events.len(), if cpu == 10.0 { 0 } else { 1 });
    }
    assert_eq!(state.history().len(), 2);
}

#[test]
fn quit_keys() {
    assert!(is_quit_key('q', false));
    assert!(is_quit_key('q', true));
    assert!(is_quit_key('c', true));
    assert!(!is_quit_key('c', false));
    assert!(!is_quit_key('x', true));
}

#[test]
fn settings_compare_by_value() {
    assert_eq!(Config::default(), Config::default());
    let mut other = Config::default();
    other.general.history_capacity = 7;
    assert_ne!(other, Config::default());
    assert_eq!(other.clone(), other);
}
