//! What the daemon keeps and decides between ticks: the alert rules it
//! watches, its sampling interval, and what each new sample does to its
//! history and alerts.
use vstd::prelude::*;

use crate::alert::{evaluated, initial_states, AlertEngine, AlertEvent, AlertRule, MetricKind};
use crate::config::Config;
use crate::float::Float32;
use crate::history::{pushed, HistoryBuffer};
use crate::snapshot::SystemSnapshot;

verus! {

/// The three rules of the settings: `cpu-high`, `memory-high` and
/// `root-disk-high` (the disk mounted at `/`), each with its threshold from
/// `config`, the recovery threshold given for it, and the common sustain
/// count.
pub fn alert_rules_from_config(
    config: &Config,
    cpu_recovery_percent: Float32,
    memory_recovery_percent: Float32,
    disk_recovery_percent: Float32,
) -> (r: Vec<AlertRule>)
    ensures
        r@.len() == 3,
        r@[0].name@ == "cpu-high"@,
        r@[0].metric == MetricKind::Cpu,
        r@[0].threshold_percent == config.alerts.cpu_percent_max,
        r@[0].recovery_threshold_percent == cpu_recovery_percent,
        r@[1].name@ == "memory-high"@,
        r@[1].metric == MetricKind::Memory,
        r@[1].threshold_percent == config.alerts.mem_percent_max,
        r@[1].recovery_threshold_percent == memory_recovery_percent,
        r@[2].name@ == "root-disk-high"@,
        r@[2].metric matches MetricKind::Disk(mount) && mount@ == "/"@,
        r@[2].threshold_percent == config.alerts.disk_percent_max,
        r@[2].recovery_threshold_percent == disk_recovery_percent,
        forall|i: int| 0 <= i < 3 ==> #[trigger] r@[i].sustained_ticks == config.alerts.sustained_ticks,
{
    let mut rules: Vec<AlertRule> = Vec::new();
    rules.push(
        AlertRule {
            name: String::from_str("cpu-high"),
            metric: MetricKind::Cpu,
            threshold_percent: config.alerts.cpu_percent_max,
            recovery_threshold_percent: cpu_recovery_percent,
            sustained_ticks: config.alerts.sustained_ticks,
        },
    );
    rules.push(
        AlertRule {
            name: String::from_str("memory-high"),
            metric: MetricKind::Memory,
            threshold_percent: config.alerts.mem_percent_max,
            recovery_threshold_percent: memory_recovery_percent,
            sustained_ticks: config.alerts.sustained_ticks,
        },
    );
    rules.push(
        AlertRule {
            name: String::from_str("root-disk-high"),
            metric: MetricKind::Disk(String::from_str("/")),
            threshold_percent: config.alerts.disk_percent_max,
            recovery_threshold_percent: disk_recovery_percent,
            sustained_ticks: config.alerts.sustained_ticks,
        },
    );
    rules
}

/// Seconds between samples: the configured interval, and at least one.
pub fn refresh_interval_secs(config: &Config) -> (r: u64)
    ensures
        r == if config.general.refresh_interval_secs == 0 {
            1
        } else {
            config.general.refresh_interval_secs
        },
{
    if config.general.refresh_interval_secs == 0 {
        1
    } else {
        config.general.refresh_interval_secs
    }
}

/// The daemon's memory: the rolling history and the alert engine.
pub struct DaemonState {
    history: HistoryBuffer,
    alerts: AlertEngine,
}

impl DaemonState {
    pub closed spec fn history_spec(self) -> HistoryBuffer {
        self.history
    }

    pub closed spec fn alerts_spec(self) -> AlertEngine {
        self.alerts
    }

    /// An empty history of the configured capacity and an engine over `rules`.
    pub fn new(config: &Config, rules: Vec<AlertRule>) -> (r: DaemonState)
        ensures
            r.history_spec().contents() == Seq::<SystemSnapshot>::empty(),
            r.history_spec().capacity_spec() == config.general.history_capacity,
            r.alerts_spec().rules_spec() == rules@,
            r.alerts_spec().states_spec() == initial_states(rules@),
    {
        DaemonState {
            history: HistoryBuffer::new(config.general.history_capacity),
            alerts: AlertEngine::new(rules),
        }
    }

    /// One successful sample: the alerts are evaluated against it and it joins
    /// the history; the events raised are returned. `None`, with nothing
    /// changed, where an alert count would overflow.
    pub fn on_snapshot(&mut self, snapshot: SystemSnapshot) -> (r: Option<Vec<AlertEvent>>)
        ensures
            final(self).alerts_spec().rules_spec() == old(self).alerts_spec().rules_spec(),
            final(self).history_spec().capacity_spec() == old(self).history_spec().capacity_spec(),
            match evaluated(
                old(self).alerts_spec().rules_spec(),
                old(self).alerts_spec().states_spec(),
                snapshot,
                old(self).alerts_spec().rules_spec().len(),
            ) {
                None => r is None && final(self).alerts_spec().states_spec()
                    == old(self).alerts_spec().states_spec() && final(self).history_spec().contents()
                    == old(self).history_spec().contents(),
                Some((states, events)) => r matches Some(v) && v@ == events
                    && final(self).alerts_spec().states_spec() == states
                    && final(self).history_spec().contents() == pushed(
                    old(self).history_spec().contents(),
                    old(self).history_spec().capacity_spec(),
                    snapshot,
                ),
            },
    {
        let events = self.alerts.try_evaluate(&snapshot);
        if events.is_some() {
            self.history.push(snapshot);
        }
        events
    }

    pub fn history(&self) -> (r: &HistoryBuffer)
        ensures
            *r == self.history_spec(),
    {
        &self.history
    }
}

} // verus!
