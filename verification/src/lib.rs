//! Verified core of a terminal system monitor: metric snapshots, a bounded
//! history of samples, an alert engine with sustained thresholds and recovery
//! hysteresis, process ranking, `/proc/net/tcp` parsing, settings defaults and
//! the plain-text reports.
pub mod float;
pub mod snapshot;
pub mod history;
pub mod alert;
pub mod alert_laws;
pub mod collectors;
pub mod text;
pub mod config;
pub mod cli;
pub mod daemon;
pub mod ui;
