//! The memory collector. It reads usage through sysinfo and computes its
//! percentage in floating point, so the program around the library does its
//! work.
use vstd::prelude::*;

verus! {

pub struct MemoryCollector;

} // verus!
