//! Disk usage figures.
use vstd::prelude::*;

use crate::float::Float32;
use crate::snapshot::DiskInfo;

verus! {

pub struct DiskCollector;

impl DiskCollector {
    /// Space in use: the total less the available space, 0 where more is
    /// available than the total.
    pub fn used_bytes(total_bytes: u64, available_bytes: u64) -> (r: u64)
        ensures
            r == if total_bytes > available_bytes {
                total_bytes - available_bytes
            } else {
                0
            },
    {
        total_bytes.saturating_sub(available_bytes)
    }

    /// The figures of one disk from its total and available space and the
    /// usage percentage of the used space.
    pub fn disk_info(
        mount_point: String,
        total_bytes: u64,
        available_bytes: u64,
        used_percent: Float32,
    ) -> (r: DiskInfo)
        ensures
            r.mount_point == mount_point,
            r.total_bytes == total_bytes,
            r.used_bytes == if total_bytes > available_bytes {
                total_bytes - available_bytes
            } else {
                0
            },
            r.used_percent == used_percent,
    {
        DiskInfo {
            mount_point,
            total_bytes,
            used_bytes: Self::used_bytes(total_bytes, available_bytes),
            used_percent,
        }
    }
}

} // verus!
