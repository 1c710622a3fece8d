//! Network totals across interfaces.
use vstd::prelude::*;

use crate::collectors::network_proc::{established_count, parse_active_connection_count};
use crate::snapshot::NetworkInfo;

verus! {

/// The sum of the counters.
pub open spec fn counter_sum(values: Seq<u64>) -> int
    decreases values.len(),
{
    if values.len() == 0 {
        0
    } else {
        counter_sum(values.drop_last()) + values.last()
    }
}

/// The sum of `values`; `None` where it passes `u64::MAX`.
pub fn sum_counters(values: &Vec<u64>) -> (r: Option<u64>)
    ensures
        r is Some <==> counter_sum(values@) <= u64::MAX,
        r matches Some(total) ==> total == counter_sum(values@),
{
    let mut total: u64 = 0;
    let mut i: usize = 0;
    while i < values.len()
        invariant
            i <= values@.len(),
            total == counter_sum(values@.take(i as int)),
        decreases values@.len() - i,
    {
        proof {
            assert(values@.take(i + 1).drop_last() =~= values@.take(i as int));
        }
        match total.checked_add(values[i]) {
            Some(t) => total = t,
            None => {
                proof {
                    lemma_counter_sum_grows(values@, (i + 1) as nat);
                }
                return None;
            },
        }
        i = i + 1;
    }
    proof {
        assert(values@.take(i as int) =~= values@);
    }
    Some(total)
}

/// A sum of counters only grows as counters are added.
proof fn lemma_counter_sum_grows(values: Seq<u64>, n: nat)
    requires
        n <= values.len(),
    ensures
        counter_sum(values.take(n as int)) <= counter_sum(values),
    decreases values.len(),
{
    if n < values.len() {
        assert(values.drop_last().take(n as int) =~= values.take(n as int));
        lemma_counter_sum_grows(values.drop_last(), n);
    } else {
        assert(values.take(n as int) =~= values);
    }
}

pub struct NetworkCollector;

impl NetworkCollector {
    /// The network figures from the byte counters of each interface and, where
    /// it could be read, the text of `/proc/net/tcp` (0 connections where it
    /// could not). `None` where a total passes `u64::MAX`.
    pub fn network_info(received: &Vec<u64>, transmitted: &Vec<u64>, tcp_table: Option<&str>) -> (r:
        Option<NetworkInfo>)
        ensures
            r is Some <==> counter_sum(received@) <= u64::MAX && counter_sum(transmitted@)
                <= u64::MAX,
            r matches Some(info) ==> {
                &&& info.rx_bytes_per_sec == counter_sum(received@)
                &&& info.tx_bytes_per_sec == counter_sum(transmitted@)
                &&& info.active_connections == match tcp_table {
                    Some(text) => established_count(text@),
                    None => 0,
                }
            },
    {
        let rx = sum_counters(received);
        let tx = sum_counters(transmitted);
        match (rx, tx) {
            (Some(rx_bytes_per_sec), Some(tx_bytes_per_sec)) => {
                let active_connections = match tcp_table {
                    Some(text) => parse_active_connection_count(text),
                    None => 0,
                };
                Some(NetworkInfo { rx_bytes_per_sec, tx_bytes_per_sec, active_connections })
            },
            _ => None,
        }
    }
}

} // verus!
