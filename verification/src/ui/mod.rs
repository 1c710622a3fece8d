//! The plain-text reports, the data behind the CPU history chart, and the
//! dashboard's decisions.
pub mod dashboard;
pub mod sparkline;
pub mod table;
