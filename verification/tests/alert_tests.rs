use sysprobe::alert::{AlertEngine, AlertEvent, AlertRule, MetricKind};
use sysprobe::float::{Float32, Float64};
use sysprobe::snapshot::{
    CpuInfo, DiskInfo, MemoryInfo, NetworkInfo, ProcessInfo, SystemSnapshot, Timestamp,
};

fn pct(value: f32) -> Float32 {
    Float32::from_bits(value.to_bits())
}

fn cpu_rule(threshold_percent: f32, sustained_ticks: u32) -> AlertRule {
    AlertRule {
        name: "cpu-high".to_owned(),
        metric: MetricKind::Cpu,
        threshold_percent: pct(threshold_percent),
        recovery_threshold_percent: pct(threshold_percent),
        sustained_ticks,
    }
}

fn now() -> Timestamp {
    let at = chrono::Utc::now();
    Timestamp::from_parts(at.timestamp(), at.timestamp_subsec_nanos()).expect("now is an instant")
}

fn snapshot(cpu_percent: f32, memory_percent: f32, disk_percent: f32) -> SystemSnapshot {
    SystemSnapshot {
        timestamp: now(),
        cpu: CpuInfo {
            global_usage_percent: pct(cpu_percent),
            per_core_usage_percent: vec![pct(cpu_percent)],
            load_avg_1: Float64::from_bits(0.0f64.to_bits()),
        },
        memory: MemoryInfo {
            total_bytes: 100,
            used_bytes: memory_percent as u64,
            used_percent: pct(memory_percent),
            swap_used_bytes: 0,
        },
        disks: vec![DiskInfo {
            mount_point: "/".to_owned(),
            total_bytes: 100,
            used_bytes: disk_percent as u64,
            used_percent: pct(disk_percent),
        }],
        network: NetworkInfo {
            rx_bytes_per_sec: 0,
            tx_bytes_per_sec: 0,
            active_connections: 0,
        },
        top_processes: vec![ProcessInfo {
            pid: 1,
            name: "test".to_owned(),
            cpu_percent: pct(cpu_percent),
            memory_bytes: 1,
        }],
    }
}

#[test]
fn triggers_after_sustained_ticks() {
    let mut engine = AlertEngine::new(vec![cpu_rule(80.0, 3)]);

    assert!(engine.evaluate(&snapshot(81.0, 10.0, 10.0)).is_empty());
    assert!(engine.evaluate(&snapshot(82.0, 10.0, 10.0)).is_empty());
    let events = engine.evaluate(&snapshot(83.0, 10.0, 10.0));

    assert!(matches!(
        events.as_slice(),
        [AlertEvent::Triggered { rule_name, value, .. }]
        if rule_name == "cpu-high" && (f32::from_bits(value.bits) - 83.0).abs() < f32::EPSILON
    ));
}

#[test]
fn does_not_trigger_on_isolated_spike() {
    let mut engine = AlertEngine::new(vec![cpu_rule(80.0, 2)]);

    assert!(engine.evaluate(&snapshot(90.0, 10.0, 10.0)).is_empty());
    assert!(engine.evaluate(&snapshot(20.0, 10.0, 10.0)).is_empty());
    assert!(engine.evaluate(&snapshot(90.0, 10.0, 10.0)).is_empty());
}

#[test]
fn emits_resolution_when_metric_drops_below_threshold() {
    let mut engine = AlertEngine::new(vec![cpu_rule(80.0, 1)]);

    assert_eq!(engine.evaluate(&snapshot(90.0, 10.0, 10.0)).len(), 1);
    let events = engine.evaluate(&snapshot(20.0, 10.0, 10.0));

    assert!(matches!(
        events.as_slice(),
        [AlertEvent::Resolved { rule_name, .. }] if rule_name == "cpu-high"
    ));
}

#[test]
fn keeps_alert_active_until_recovery_threshold() {
    let mut engine = AlertEngine::new(vec![AlertRule {
        name: "cpu-high".to_owned(),
        metric: MetricKind::Cpu,
        threshold_percent: pct(80.0),
        recovery_threshold_percent: pct(70.0),
        sustained_ticks: 1,
    }]);

    assert_eq!(engine.evaluate(&snapshot(90.0, 10.0, 10.0)).len(), 1);
    assert!(engine.evaluate(&snapshot(75.0, 10.0, 10.0)).is_empty());

    let events = engine.evaluate(&snapshot(70.0, 10.0, 10.0));
    assert!(matches!(
        events.as_slice(),
        [AlertEvent::Resolved { rule_name, .. }] if rule_name == "cpu-high"
    ));
}

#[test]
fn evaluates_memory_and_disk_rules() {
    let mut engine = AlertEngine::new(vec![
        AlertRule {
            name: "memory-high".to_owned(),
            metric: MetricKind::Memory,
            threshold_percent: pct(70.0),
            recovery_threshold_percent: pct(70.0),
            sustained_ticks: 1,
        },
        AlertRule {
            name: "disk-high".to_owned(),
            metric: MetricKind::Disk("/".to_owned()),
            threshold_percent: pct(90.0),
            recovery_threshold_percent: pct(90.0),
            sustained_ticks: 1,
        },
    ]);

    let events = engine.evaluate(&snapshot(10.0, 75.0, 95.0));

    assert_eq!(events.len(), 2);
}

#[test]
fn zero_sustained_ticks_fires_on_first_reading() {
    let mut engine = AlertEngine::new(vec![cpu_rule(80.0, 0)]);
    let events = engine.evaluate(&snapshot(80.0, 10.0, 10.0));
    assert!(matches!(events.as_slice(), [AlertEvent::Triggered { .. }]));
}

#[test]
fn active_alert_triggers_once_and_resolves_once() {
    let mut engine = AlertEngine::new(vec![cpu_rule(80.0, 1)]);
    assert_eq!(engine.evaluate(&snapshot(90.0, 10.0, 10.0)).len(), 1);
    assert!(engine.evaluate(&snapshot(95.0, 10.0, 10.0)).is_empty());
    assert_eq!(engine.evaluate(&snapshot(10.0, 10.0, 10.0)).len(), 1);
    assert!(engine.evaluate(&snapshot(10.0, 10.0, 10.0)).is_empty());
}

#[test]
fn nan_reading_neither_triggers_nor_resolves() {
    let mut engine = AlertEngine::new(vec![cpu_rule(80.0, 1)]);
    assert_eq!(engine.evaluate(&snapshot(90.0, 10.0, 10.0)).len(), 1);
    assert!(engine.evaluate(&snapshot(f32::NAN, 10.0, 10.0)).is_empty());
    assert_eq!(engine.evaluate(&snapshot(10.0, 10.0, 10.0)).len(), 1);
}

#[test]
fn rule_on_missing_disk_is_passed_over() {
    let mut engine = AlertEngine::new(vec![AlertRule {
        name: "data-disk".to_owned(),
        metric: MetricKind::Disk("/data".to_owned()),
        threshold_percent: pct(1.0),
        recovery_threshold_percent: pct(1.0),
        sustained_ticks: 1,
    }]);
    assert!(engine.evaluate(&snapshot(10.0, 10.0, 99.0)).is_empty());
}

#[test]
fn rules_sharing_a_name_share_their_count() {
    let mut engine = AlertEngine::new(vec![cpu_rule(80.0, 2), cpu_rule(80.0, 2)]);
    let events = engine.evaluate(&snapshot(90.0, 10.0, 10.0));
    assert_eq!(events.len(), 1);
}

#[test]
fn try_evaluate_reports_events() {
    let mut engine = AlertEngine::new(vec![cpu_rule(80.0, 1)]);
    let events = engine.try_evaluate(&snapshot(90.0, 10.0, 10.0)).expect("no overflow");
    assert_eq!(events.len(), 1);
}

#[test]
fn events_of_a_rule_alternate_across_calls() {
    let mut engine = AlertEngine::new(vec![cpu_rule(80.0, 2)]);
    let readings = [90.0, 90.0, 95.0, 10.0, 85.0, 10.0, 90.0, 91.0, 92.0, 5.0];
    let mut kinds = Vec::new();
    for value in readings {
        for event in engine.evaluate(&snapshot(value, 10.0, 10.0)) {
            kinds.push(matches!(event, AlertEvent::Triggered { .. }));
        }
    }
    assert_eq!(kinds, vec![true, false, true, false]);
}

#[test]
fn a_missing_disk_leaves_the_rule_as_it_was() {
    let rule = AlertRule {
        name: "data-disk".to_owned(),
        metric: MetricKind::Disk("/".to_owned()),
        threshold_percent: pct(50.0),
        recovery_threshold_percent: pct(50.0),
        sustained_ticks: 2,
    };
    let mut engine = AlertEngine::new(vec![rule.clone()]);
    assert!(engine.evaluate(&snapshot(10.0, 10.0, 60.0)).is_empty());
    let mut without_disk = snapshot(10.0, 10.0, 60.0);
    without_disk.disks.clear();
    assert!(engine.evaluate(&without_disk).is_empty());
    assert_eq!(engine.evaluate(&snapshot(10.0, 10.0, 60.0)).len(), 1);
    assert_eq!(rule, rule.clone());
}
