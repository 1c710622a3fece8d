//! The CPU collector. It only reads usage through sysinfo, so the
//! program around the library does its work.
use vstd::prelude::*;

verus! {

pub struct CpuCollector;

} // verus!
