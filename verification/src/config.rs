//! The daemon's settings and their defaults.
use vstd::prelude::*;

use crate::float::Float32;

verus! {

#[derive(Clone, Debug, PartialEq)]
pub struct Config {
    pub general: GeneralConfig,
    pub alerts: AlertConfig,
    pub export: ExportConfig,
}

#[derive(Clone, Debug, PartialEq)]
pub struct GeneralConfig {
    pub refresh_interval_secs: u64,
    pub history_capacity: usize,
}

#[derive(Clone, Debug, PartialEq)]
pub struct AlertConfig {
    pub cpu_percent_max: Float32,
    pub mem_percent_max: Float32,
    pub disk_percent_max: Float32,
    pub sustained_ticks: u32,
    pub recovery_margin_percent: Float32,
}

#[derive(Clone, Debug, PartialEq)]
pub struct ExportConfig {
    pub json_output_path: String,
    pub history_output_path: String,
}

/// Encoding of `5.0_f32`.
pub const FIVE_PERCENT_BITS: u32 = 0x40a0_0000;

/// Encoding of `90.0_f32`.
pub const NINETY_PERCENT_BITS: u32 = 0x42b4_0000;

/// Encoding of `95.0_f32`.
pub const NINETY_FIVE_PERCENT_BITS: u32 = 0x42be_0000;

/// The recovery margin when the settings give none: 5 percentage points.
pub fn default_recovery_margin_percent() -> (r: Float32)
    ensures
        r.bits == FIVE_PERCENT_BITS,
{
    Float32 { bits: FIVE_PERCENT_BITS }
}

/// Where the rolling history goes when the settings say nowhere.
pub fn default_history_output_path() -> (r: String)
    ensures
        r@ == "./sysprobe_history.json"@,
{
    String::from_str("./sysprobe_history.json")
}

impl Config {
    /// The settings used when no file gives any.
    pub open spec fn is_default(self) -> bool {
        &&& self.general.refresh_interval_secs == 2
        &&& self.general.history_capacity == 120
        &&& self.alerts.cpu_percent_max.bits == NINETY_PERCENT_BITS
        &&& self.alerts.mem_percent_max.bits == NINETY_PERCENT_BITS
        &&& self.alerts.disk_percent_max.bits == NINETY_FIVE_PERCENT_BITS
        &&& self.alerts.sustained_ticks == 3
        &&& self.alerts.recovery_margin_percent.bits == FIVE_PERCENT_BITS
        &&& self.export.json_output_path@ == "./sysprobe_snapshot.json"@
        &&& self.export.history_output_path@ == "./sysprobe_history.json"@
    }
}

impl Default for Config {
    /// Every 2 s, 120 samples kept, alerts at 90 % CPU and memory and 95 %
    /// disk after 3 ticks with a 5-point margin, output in the working
    /// directory.
    fn default() -> (r: Config)
        ensures
            r.is_default(),
    {
        Config {
            general: GeneralConfig { refresh_interval_secs: 2, history_capacity: 120 },
            alerts: AlertConfig {
                cpu_percent_max: Float32 { bits: NINETY_PERCENT_BITS },
                mem_percent_max: Float32 { bits: NINETY_PERCENT_BITS },
                disk_percent_max: Float32 { bits: NINETY_FIVE_PERCENT_BITS },
                sustained_ticks: 3,
                recovery_margin_percent: default_recovery_margin_percent(),
            },
            export: ExportConfig {
                json_output_path: String::from_str("./sysprobe_snapshot.json"),
                history_output_path: default_history_output_path(),
            },
        }
    }
}

} // verus!
