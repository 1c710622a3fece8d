//! One sample of the machine's state.
use vstd::prelude::*;

use crate::float::{Float32, Float64};

verus! {

/// Whether `chrono::DateTime::<Utc>::from_timestamp(seconds, nanoseconds)`
/// gives an instant: the day must fall within chrono's dates (the years
/// -262143 to 262142), and the nanoseconds below one second, or below two in
/// a leap second (the 59th second of a minute).
pub open spec fn utc_instant_exists(seconds: i64, nanoseconds: u32) -> bool {
    &&& -8_334_601_228_800 <= seconds <= 8_210_266_876_799
    &&& nanoseconds < 1_000_000_000 || (nanoseconds < 2_000_000_000 && seconds % 60 == 59)
}

/// What the `Display` of the `chrono::DateTime<Utc>` made from
/// `(seconds, nanoseconds)` writes, e.g. `2024-05-01 12:00:00.250 UTC`.
pub uninterp spec fn utc_instant_text(seconds: i64, nanoseconds: u32) -> Seq<char>;

/// Calls `chrono::DateTime::<Utc>::from_timestamp`; claims that it gives an
/// instant exactly when `utc_instant_exists` holds (its day count
/// `seconds.div_euclid(86400) + 719163` is within `NaiveDate`'s range, and
/// `NaiveTime::from_num_seconds_from_midnight_opt` accepts the rest).
#[verifier::external_body]
fn utc_instant_is_valid(seconds: i64, nanoseconds: u32) -> (r: bool)
    ensures
        r == utc_instant_exists(seconds, nanoseconds),
{
    chrono::DateTime::from_timestamp(seconds, nanoseconds).is_some()
}

/// Calls `chrono::DateTime::<Utc>::from_timestamp` and then `to_string` on the
/// instant; claims only that the text is a function of the two arguments.
#[verifier::external_body]
fn utc_instant_display(seconds: i64, nanoseconds: u32) -> (r: String)
    requires
        utc_instant_exists(seconds, nanoseconds),
    ensures
        r@ == utc_instant_text(seconds, nanoseconds),
{
    match chrono::DateTime::from_timestamp(seconds, nanoseconds) {
        Some(at) => at.to_string(),
        None => String::new(),
    }
}

/// An instant in UTC: seconds since the Unix epoch and the nanoseconds past
/// them, as `chrono::DateTime<Utc>` holds it.
#[derive(Clone, Copy, Debug, PartialEq, Eq, Structural)]
pub struct Timestamp {
    seconds: i64,
    nanoseconds: u32,
}

impl Timestamp {
    #[verifier::type_invariant]
    spec fn is_instant(self) -> bool {
        utc_instant_exists(self.seconds, self.nanoseconds)
    }

    pub closed spec fn seconds_spec(self) -> i64 {
        self.seconds
    }

    pub closed spec fn nanoseconds_spec(self) -> u32 {
        self.nanoseconds
    }

    /// The instant `seconds` + `nanoseconds` after the epoch, or `None` where
    /// chrono has no such instant.
    pub fn from_parts(seconds: i64, nanoseconds: u32) -> (r: Option<Timestamp>)
        ensures
            r is Some <==> utc_instant_exists(seconds, nanoseconds),
            r matches Some(t) ==> t.seconds_spec() == seconds && t.nanoseconds_spec()
                == nanoseconds,
    {
        if utc_instant_is_valid(seconds, nanoseconds) {
            Some(Timestamp { seconds, nanoseconds })
        } else {
            None
        }
    }

    pub fn seconds(&self) -> (r: i64)
        ensures
            r == self.seconds_spec(),
    {
        self.seconds
    }

    pub fn nanoseconds(&self) -> (r: u32)
        ensures
            r == self.nanoseconds_spec(),
    {
        self.nanoseconds
    }

    /// The text chrono's `Display` gives the instant.
    pub fn display(&self) -> (r: String)
        ensures
            r@ == utc_instant_text(self.seconds_spec(), self.nanoseconds_spec()),
    {
        proof {
            use_type_invariant(self);
        }
        utc_instant_display(self.seconds, self.nanoseconds)
    }
}

#[derive(Clone, Debug)]
pub struct CpuInfo {
    pub global_usage_percent: Float32,
    pub per_core_usage_percent: Vec<Float32>,
    pub load_avg_1: Float64,
}

#[derive(Clone, Debug)]
pub struct MemoryInfo {
    pub total_bytes: u64,
    pub used_bytes: u64,
    pub used_percent: Float32,
    pub swap_used_bytes: u64,
}

#[derive(Clone, Debug)]
pub struct DiskInfo {
    pub mount_point: String,
    pub total_bytes: u64,
    pub used_bytes: u64,
    pub used_percent: Float32,
}

#[derive(Clone, Debug)]
pub struct NetworkInfo {
    pub rx_bytes_per_sec: u64,
    pub tx_bytes_per_sec: u64,
    pub active_connections: usize,
}

#[derive(Clone, Debug)]
pub struct ProcessInfo {
    pub pid: u32,
    pub name: String,
    pub cpu_percent: Float32,
    pub memory_bytes: u64,
}

#[derive(Clone, Debug)]
pub struct SystemSnapshot {
    pub timestamp: Timestamp,
    pub cpu: CpuInfo,
    pub memory: MemoryInfo,
    pub disks: Vec<DiskInfo>,
    pub network: NetworkInfo,
    pub top_processes: Vec<ProcessInfo>,
}

} // verus!
