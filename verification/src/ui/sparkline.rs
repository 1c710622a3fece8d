//! The points of the CPU history chart.
use vstd::prelude::*;

use crate::float::percent_level;
use crate::history::HistoryBuffer;
use crate::snapshot::SystemSnapshot;

verus! {

/// The CPU usage of every sample held, oldest first, clamped to 0..=100 and
/// rounded to whole percents (NaN as 0).
pub fn cpu_sparkline_data(history: &HistoryBuffer) -> (r: Vec<u64>)
    ensures
        r@ == history.contents().map_values(
            |s: SystemSnapshot| percent_level(s.cpu.global_usage_percent.bits) as u64,
        ),
{
    let values = history.cpu_history();
    let mut out: Vec<u64> = Vec::new();
    for i in 0..values.len()
        invariant
            values@ == history.contents().map_values(|s: SystemSnapshot| s.cpu.global_usage_percent),
            out@ == history.contents().take(i as int).map_values(
                |s: SystemSnapshot| percent_level(s.cpu.global_usage_percent.bits) as u64,
            ),
    {
        out.push(values[i].percent_level());
        proof {
            let c = history.contents();
            assert(c.take(i + 1).drop_last() =~= c.take(i as int));
        }
    }
    proof {
        let c = history.contents();
        assert(c.take(c.len() as int) =~= c);
    }
    out
}

} // verus!
