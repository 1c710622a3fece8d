//! What the collectors compute from the readings they are handed.
pub mod cpu;
pub mod disk;
pub mod memory;
pub mod network;
pub mod network_proc;
pub mod processes;
