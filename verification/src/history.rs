//! A bounded history of snapshots: the newest `capacity` samples, oldest first.
use std::collections::VecDeque;

use vstd::prelude::*;

use crate::float::Float32;
use crate::snapshot::SystemSnapshot;
use crate::text::chars_of;

verus! {

broadcast use vstd::std_specs::vecdeque::group_vec_dequeue_axioms;

/// What one `push` makes of the contents `items` of a buffer of `capacity`.
pub open spec fn pushed(items: Seq<SystemSnapshot>, capacity: nat, snapshot: SystemSnapshot) -> Seq<
    SystemSnapshot,
> {
    if capacity == 0 {
        items
    } else if items.len() >= capacity {
        items.drop_first().push(snapshot)
    } else {
        items.push(snapshot)
    }
}

/// The contents after pushing each of `snapshots` in turn onto `items`.
pub open spec fn pushed_all(
    items: Seq<SystemSnapshot>,
    capacity: nat,
    snapshots: Seq<SystemSnapshot>,
) -> Seq<SystemSnapshot>
    decreases snapshots.len(),
{
    if snapshots.len() == 0 {
        items
    } else {
        pushed(pushed_all(items, capacity, snapshots.drop_last()), capacity, snapshots.last())
    }
}

/// The newest `points` of `items` (all of them when there are fewer).
pub open spec fn newest(items: Seq<SystemSnapshot>, points: nat) -> Seq<SystemSnapshot> {
    if items.len() > points {
        items.skip(items.len() - points)
    } else {
        items
    }
}

/// Pushing samples one by one onto an empty buffer keeps exactly the newest
/// `capacity` of them, oldest first: the oldest leave first, and a buffer of
/// capacity 0 keeps nothing.
pub proof fn lemma_history_keeps_newest(capacity: nat, snapshots: Seq<SystemSnapshot>)
    ensures
        pushed_all(Seq::empty(), capacity, snapshots) == newest(snapshots, capacity),
    decreases snapshots.len(),
{
    if snapshots.len() > 0 {
        let init = snapshots.drop_last();
        lemma_history_keeps_newest(capacity, init);
        let x = snapshots.last();
        if capacity == 0 {
            assert(newest(snapshots, capacity) =~= Seq::<SystemSnapshot>::empty());
            assert(newest(init, capacity) =~= Seq::<SystemSnapshot>::empty());
        } else if init.len() >= capacity {
            assert(newest(init, capacity).drop_first().push(x) =~= newest(snapshots, capacity));
        } else {
            assert(init.push(x) =~= snapshots);
        }
    }
}

/// The value of a decimal digit character.
pub open spec fn digit_value(c: char) -> Option<nat> {
    if '0' <= c && c <= '9' {
        Some((c as u32 - '0' as u32) as nat)
    } else {
        None
    }
}

/// The number a non-empty run of decimal digits writes; none otherwise.
pub open spec fn decimal_value(s: Seq<char>) -> Option<nat>
    decreases s.len(),
{
    if s.len() == 0 {
        None
    } else {
        match digit_value(s.last()) {
            None => None,
            Some(d) => if s.len() == 1 {
                Some(d)
            } else {
                match decimal_value(s.drop_last()) {
                    None => None,
                    Some(v) => Some(10 * v + d),
                }
            },
        }
    }
}

/// Seconds in one unit of a history window: `s`, `m`, `h` or `d`.
pub open spec fn unit_seconds(c: char) -> Option<nat> {
    if c == 's' {
        Some(1)
    } else if c == 'm' {
        Some(60)
    } else if c == 'h' {
        Some(3600)
    } else if c == 'd' {
        Some(86400)
    } else {
        None
    }
}

/// The length in seconds of a history window written as a number and a unit
/// (`30s`, `5m`, `1h`, `2d`) or as a bare number of seconds.
pub open spec fn window_seconds(s: Seq<char>) -> Option<nat> {
    if s.len() > 0 && unit_seconds(s.last()) is Some {
        match decimal_value(s.drop_last()) {
            None => None,
            Some(v) => Some(v * unit_seconds(s.last())->0),
        }
    } else {
        decimal_value(s)
    }
}

proof fn lemma_decimal_value_grows(s: Seq<char>, n: nat)
    requires
        1 <= n <= s.len(),
        decimal_value(s) is Some,
    ensures
        decimal_value(s.take(n as int)) is Some,
        decimal_value(s.take(n as int))->0 <= decimal_value(s)->0,
    decreases s.len(),
{
    if n < s.len() {
        lemma_decimal_value_grows(s.drop_last(), n);
        assert(s.drop_last().take(n as int) =~= s.take(n as int));
    } else {
        assert(s.take(n as int) =~= s);
    }
}

/// The window of `text` in seconds (see `window_seconds`); `None` for text of
/// another form and for windows past `u64::MAX` seconds.
pub fn parse_window(text: &str) -> (r: Option<u64>)
    ensures
        r is Some <==> window_seconds(text@) is Some && window_seconds(text@)->0 <= u64::MAX,
        r matches Some(v) ==> v == window_seconds(text@)->0,
{
    let chars = chars_of(text);
    let mut end = chars.len();
    let mut unit: u64 = 1;
    if end > 0 {
        let last = chars[end - 1];
        let u: u64 = if last == 's' {
            1
        } else if last == 'm' {
            60
        } else if last == 'h' {
            3600
        } else if last == 'd' {
            86400
        } else {
            0
        };
        if u > 0 {
            unit = u;
            end = end - 1;
        }
    }
    let ghost digits = chars@.take(end as int);
    proof {
        if end < chars@.len() {
            assert(digits =~= text@.drop_last());
        } else {
            assert(digits =~= text@);
        }
        assert(window_seconds(text@) == match decimal_value(digits) {
            None => None,
            Some(v) => Some(v * (unit as nat)),
        });
    }
    if end == 0 {
        return None;
    }
    let mut value: u64 = 0;
    let mut i: usize = 0;
    while i < end
        invariant
            0 <= i <= end <= chars@.len(),
            digits == chars@.take(end as int),
            unit >= 1,
            window_seconds(text@) == match decimal_value(digits) {
                None => None,
                Some(v) => Some(v * (unit as nat)),
            },
            i > 0 ==> decimal_value(digits.take(i as int)) == Some(value as nat),
            i == 0 ==> value == 0,
        decreases end - i,
    {
        let c = chars[i];
        proof {
            assert(digits.take(i + 1).drop_last() =~= digits.take(i as int));
            assert(digits.take(i + 1).last() == c);
        }
        if c < '0' || c > '9' {
            proof {
                lemma_decimal_value_none_after(digits, (i + 1) as nat);
            }
            return None;
        }
        let d: u64 = (c as u32 - '0' as u32) as u64;
        if value > (u64::MAX - d) / 10 {
            proof {
                assert(decimal_value(digits.take(i + 1)) == Some((10 * value + d) as nat));
                if decimal_value(digits) is Some {
                    lemma_decimal_value_grows(digits, (i + 1) as nat);
                    assert(10 * value + d > u64::MAX) by (nonlinear_arith)
                        requires
                            value > (u64::MAX - d) / 10,
                            d <= 9,
                    ;
                    assert(decimal_value(digits)->0 * unit >= decimal_value(digits)->0) by (
                    nonlinear_arith)
                        requires
                            unit >= 1,
                    ;
                }
            }
            return None;
        }
        value = 10 * value + d;
        i = i + 1;
    }
    proof {
        assert(digits.take(end as int) =~= digits);
    }
    match value.checked_mul(unit) {
        Some(v) => Some(v),
        None => None,
    }
}

proof fn lemma_decimal_value_none_after(s: Seq<char>, n: nat)
    requires
        1 <= n <= s.len(),
        decimal_value(s.take(n as int)) is None,
    ensures
        decimal_value(s) is None,
    decreases s.len(),
{
    if n < s.len() {
        assert(s.drop_last().take(n as int) =~= s.take(n as int));
        lemma_decimal_value_none_after(s.drop_last(), n);
    } else {
        assert(s.take(n as int) =~= s);
    }
}

/// The samples taken at `since_seconds` or later (by whole seconds since the
/// epoch), in their order.
pub open spec fn taken_since(snapshots: Seq<SystemSnapshot>, since_seconds: int) -> Seq<
    SystemSnapshot,
> {
    snapshots.filter(|s: SystemSnapshot| s.timestamp.seconds_spec() >= since_seconds)
}

/// The samples of the last `window_secs` seconds before `now_seconds`.
pub fn snapshots_since(snapshots: Vec<SystemSnapshot>, now_seconds: i64, window_secs: u64) -> (r: Vec<
    SystemSnapshot,
>)
    ensures
        r@ == taken_since(snapshots@, now_seconds - window_secs),
{
    let since: i128 = now_seconds as i128 - window_secs as i128;
    let ghost all = snapshots@;
    let mut out: Vec<SystemSnapshot> = Vec::new();
    for s in it: snapshots.into_iter()
        invariant
            it.seq() == all,
            since == now_seconds - window_secs,
            out@ == taken_since(all.take(it.index() as int), since as int),
    {
        proof {
            reveal(Seq::filter);
            assert(all.take(it.index() + 1).drop_last() =~= all.take(it.index() as int));
        }
        if s.timestamp.seconds() as i128 >= since {
            out.push(s);
        }
    }
    proof {
        assert(all.take(all.len() as int) =~= all);
    }
    out
}

/// The percentages a sample holds.
#[derive(Clone, Copy)]
enum UsageSeries {
    Cpu,
    Memory,
}

/// The byte rates a sample holds.
#[derive(Clone, Copy)]
enum RateSeries {
    Received,
    Transmitted,
}

spec fn usage_of(snapshot: SystemSnapshot, which: UsageSeries) -> Float32 {
    match which {
        UsageSeries::Cpu => snapshot.cpu.global_usage_percent,
        UsageSeries::Memory => snapshot.memory.used_percent,
    }
}

spec fn rate_of(snapshot: SystemSnapshot, which: RateSeries) -> u64 {
    match which {
        RateSeries::Received => snapshot.network.rx_bytes_per_sec,
        RateSeries::Transmitted => snapshot.network.tx_bytes_per_sec,
    }
}

#[derive(Debug)]
pub struct HistoryBuffer {
    capacity: usize,
    snapshots: VecDeque<SystemSnapshot>,
}

impl HistoryBuffer {
    #[verifier::type_invariant]
    spec fn bounded(self) -> bool {
        self.snapshots@.len() <= self.capacity
    }

    /// The samples held, oldest first.
    pub closed spec fn contents(self) -> Seq<SystemSnapshot> {
        self.snapshots@
    }

    pub closed spec fn capacity_spec(self) -> nat {
        self.capacity as nat
    }

    pub fn new(capacity: usize) -> (r: HistoryBuffer)
        ensures
            r.contents() == Seq::<SystemSnapshot>::empty(),
            r.capacity_spec() == capacity,
    {
        HistoryBuffer { capacity, snapshots: VecDeque::new() }
    }

    /// Appends a sample; when full, the oldest one leaves first. A buffer of
    /// capacity 0 keeps nothing.
    pub fn push(&mut self, snapshot: SystemSnapshot)
        ensures
            final(self).contents() == pushed(old(self).contents(), old(self).capacity_spec(), snapshot),
            final(self).capacity_spec() == old(self).capacity_spec(),
            final(self).contents().len() <= final(self).capacity_spec(),
    {
        proof {
            use_type_invariant(&*self);
        }
        if self.capacity == 0 {
            return;
        }
        let mut items: VecDeque<SystemSnapshot> = VecDeque::new();
        std::mem::swap(&mut items, &mut self.snapshots);
        if items.len() == self.capacity {
            let _ = items.pop_front();
        }
        items.push_back(snapshot);
        self.snapshots = items;
    }

    pub fn snapshots(&self) -> (r: &VecDeque<SystemSnapshot>)
        ensures
            r@ == self.contents(),
    {
        &self.snapshots
    }

    pub fn len(&self) -> (r: usize)
        ensures
            r == self.contents().len(),
            r <= self.capacity_spec(),
    {
        proof {
            use_type_invariant(self);
        }
        self.snapshots.len()
    }

    pub fn is_empty(&self) -> (r: bool)
        ensures
            r == (self.contents().len() == 0),
    {
        self.snapshots.len() == 0
    }

    /// The newest `points` samples, oldest first.
    fn last_points(&self, points: usize) -> (r: Vec<&SystemSnapshot>)
        ensures
            r@.len() == newest(self.contents(), points as nat).len(),
            forall|i: int|
                0 <= i < r@.len() ==> *r@[i] == newest(self.contents(), points as nat)[i],
    {
        let len = self.snapshots.len();
        let skip: usize = if len > points {
            len - points
        } else {
            0
        };
        let mut out: Vec<&SystemSnapshot> = Vec::new();
        let mut i: usize = skip;
        while i < len
            invariant
                len == self.snapshots@.len(),
                skip <= i <= len,
                skip == (if len > points { len - points } else { 0 }),
                out@.len() == i - skip,
                forall|j: int| 0 <= j < out@.len() ==> *out@[j] == self.snapshots@[skip + j],
            decreases len - i,
        {
            out.push(&self.snapshots[i]);
            i = i + 1;
        }
        out
    }

    /// A percentage of the newest `points` samples, oldest first.
    fn usage_series(&self, points: usize, which: UsageSeries) -> (r: Vec<Float32>)
        ensures
            r@ == newest(self.contents(), points as nat).map_values(
                |s: SystemSnapshot| usage_of(s, which),
            ),
    {
        let items = self.last_points(points);
        let ghost n = newest(self.contents(), points as nat);
        let mut out: Vec<Float32> = Vec::new();
        for i in 0..items.len()
            invariant
                out@ == n.take(i as int).map_values(|s: SystemSnapshot| usage_of(s, which)),
                items@.len() == n.len(),
                forall|j: int| 0 <= j < items@.len() ==> *items@[j] == n[j],
        {
            let value = match which {
                UsageSeries::Cpu => items[i].cpu.global_usage_percent,
                UsageSeries::Memory => items[i].memory.used_percent,
            };
            out.push(value);
            proof {
                assert(n.take(i + 1).drop_last() =~= n.take(i as int));
            }
        }
        proof {
            assert(n.take(n.len() as int) =~= n);
        }
        out
    }

    /// A byte rate of the newest `points` samples, oldest first.
    fn rate_series(&self, points: usize, which: RateSeries) -> (r: Vec<u64>)
        ensures
            r@ == newest(self.contents(), points as nat).map_values(
                |s: SystemSnapshot| rate_of(s, which),
            ),
    {
        let items = self.last_points(points);
        let ghost n = newest(self.contents(), points as nat);
        let mut out: Vec<u64> = Vec::new();
        for i in 0..items.len()
            invariant
                out@ == n.take(i as int).map_values(|s: SystemSnapshot| rate_of(s, which)),
                items@.len() == n.len(),
                forall|j: int| 0 <= j < items@.len() ==> *items@[j] == n[j],
        {
            let value = match which {
                RateSeries::Received => items[i].network.rx_bytes_per_sec,
                RateSeries::Transmitted => items[i].network.tx_bytes_per_sec,
            };
            out.push(value);
            proof {
                assert(n.take(i + 1).drop_last() =~= n.take(i as int));
            }
        }
        proof {
            assert(n.take(n.len() as int) =~= n);
        }
        out
    }

    /// Global CPU usage of every sample held, oldest first.
    pub fn cpu_history(&self) -> (r: Vec<Float32>)
        ensures
            r@ == self.contents().map_values(|s: SystemSnapshot| s.cpu.global_usage_percent),
    {
        proof {
            use_type_invariant(self);
            assert(newest(self.contents(), self.capacity as nat) == self.contents());
        }
        self.cpu_history_last(self.capacity)
    }

    /// Global CPU usage of the newest `points` samples, oldest first.
    pub fn cpu_history_last(&self, points: usize) -> (r: Vec<Float32>)
        ensures
            r@ == newest(self.contents(), points as nat).map_values(|s: SystemSnapshot| s.cpu.global_usage_percent),
    {
        let r = self.usage_series(points, UsageSeries::Cpu);
        proof {
            let n = newest(self.contents(), points as nat);
            assert(r@ =~= n.map_values(|s: SystemSnapshot| s.cpu.global_usage_percent));
        }
        r
    }

    /// Memory usage of every sample held, oldest first.
    pub fn memory_history(&self) -> (r: Vec<Float32>)
        ensures
            r@ == self.contents().map_values(|s: SystemSnapshot| s.memory.used_percent),
    {
        proof {
            use_type_invariant(self);
            assert(newest(self.contents(), self.capacity as nat) == self.contents());
        }
        self.memory_history_last(self.capacity)
    }

    /// Memory usage of the newest `points` samples, oldest first.
    pub fn memory_history_last(&self, points: usize) -> (r: Vec<Float32>)
        ensures
            r@ == newest(self.contents(), points as nat).map_values(|s: SystemSnapshot| s.memory.used_percent),
    {
        let r = self.usage_series(points, UsageSeries::Memory);
        proof {
            let n = newest(self.contents(), points as nat);
            assert(r@ =~= n.map_values(|s: SystemSnapshot| s.memory.used_percent));
        }
        r
    }

    /// Received bytes per second of every sample held, oldest first.
    pub fn network_rx_history(&self) -> (r: Vec<u64>)
        ensures
            r@ == self.contents().map_values(|s: SystemSnapshot| s.network.rx_bytes_per_sec),
    {
        proof {
            use_type_invariant(self);
            assert(newest(self.contents(), self.capacity as nat) == self.contents());
        }
        self.network_rx_history_last(self.capacity)
    }

    /// Received bytes per second of the newest `points` samples, oldest first.
    pub fn network_rx_history_last(&self, points: usize) -> (r: Vec<u64>)
        ensures
            r@ == newest(self.contents(), points as nat).map_values(|s: SystemSnapshot| s.network.rx_bytes_per_sec),
    {
        let r = self.rate_series(points, RateSeries::Received);
        proof {
            let n = newest(self.contents(), points as nat);
            assert(r@ =~= n.map_values(|s: SystemSnapshot| s.network.rx_bytes_per_sec));
        }
        r
    }

    /// Transmitted bytes per second of every sample held, oldest first.
    pub fn network_tx_history(&self) -> (r: Vec<u64>)
        ensures
            r@ == self.contents().map_values(|s: SystemSnapshot| s.network.tx_bytes_per_sec),
    {
        proof {
            use_type_invariant(self);
            assert(newest(self.contents(), self.capacity as nat) == self.contents());
        }
        self.network_tx_history_last(self.capacity)
    }

    /// Transmitted bytes per second of the newest `points` samples, oldest first.
    pub fn network_tx_history_last(&self, points: usize) -> (r: Vec<u64>)
        ensures
            r@ == newest(self.contents(), points as nat).map_values(|s: SystemSnapshot| s.network.tx_bytes_per_sec),
    {
        let r = self.rate_series(points, RateSeries::Transmitted);
        proof {
            let n = newest(self.contents(), points as nat);
            assert(r@ =~= n.map_values(|s: SystemSnapshot| s.network.tx_bytes_per_sec));
        }
        r
    }
}

impl Clone for HistoryBuffer {
    /// A buffer of the same capacity holding a clone of each sample.
    fn clone(&self) -> (r: HistoryBuffer)
        ensures
            r.capacity_spec() == self.capacity_spec(),
            r.contents().len() == self.contents().len(),
            forall|i: int|
                0 <= i < self.contents().len() ==> cloned::<SystemSnapshot>(
                    self.contents()[i],
                    #[trigger] r.contents()[i],
                ),
    {
        proof {
            use_type_invariant(self);
        }
        HistoryBuffer { capacity: self.capacity, snapshots: self.snapshots.clone() }
    }
}

} // verus!
