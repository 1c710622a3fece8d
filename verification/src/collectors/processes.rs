//! Ranking of processes: by CPU or by memory, heaviest first, ties broken by
//! the lower pid, keeping the first `limit`.
use vstd::prelude::*;

use crate::float::f32_total_key;
use crate::snapshot::ProcessInfo;

verus! {

#[derive(Clone, Copy, Debug, PartialEq, Eq, Structural)]
pub enum TopProcessSort {
    Cpu,
    Memory,
}

/// `a` ranks strictly before `b`: a higher CPU usage (as `f32::total_cmp`
/// orders it) or more memory, and on equal usage the lower pid.
pub open spec fn ranks_before(sort_by: TopProcessSort, a: ProcessInfo, b: ProcessInfo) -> bool {
    match sort_by {
        TopProcessSort::Cpu => {
            let ka = f32_total_key(a.cpu_percent.bits);
            let kb = f32_total_key(b.cpu_percent.bits);
            ka > kb || (ka == kb && a.pid < b.pid)
        },
        TopProcessSort::Memory => a.memory_bytes > b.memory_bytes || (a.memory_bytes
            == b.memory_bytes && a.pid < b.pid),
    }
}

/// Neither ranks before the other: equal usage and equal pid.
pub open spec fn ranks_tied(sort_by: TopProcessSort, a: ProcessInfo, b: ProcessInfo) -> bool {
    !ranks_before(sort_by, a, b) && !ranks_before(sort_by, b, a)
}

/// Some position of `perm` holds `k`.
pub open spec fn takes_place(perm: Seq<int>, k: int) -> bool {
    exists|i: int| 0 <= i < perm.len() && perm[i] == k
}

/// `output` is `input` reordered by `perm` (`output[i]` is `input[perm[i]]`),
/// in rank order, tied processes keeping their order in `input`.
pub open spec fn ranking_by(
    input: Seq<ProcessInfo>,
    output: Seq<ProcessInfo>,
    perm: Seq<int>,
    sort_by: TopProcessSort,
) -> bool {
    &&& output.len() == input.len()
    &&& perm.len() == input.len()
    &&& forall|i: int|
        0 <= i < perm.len() ==> 0 <= #[trigger] perm[i] < input.len() && output[i] == input[perm[i]]
    &&& forall|i: int, j: int| 0 <= i < j < perm.len() ==> perm[i] != perm[j]
    &&& forall|k: int| 0 <= k < input.len() ==> #[trigger] takes_place(perm, k)
    &&& forall|i: int, j: int|
        0 <= i < j < output.len() ==> !ranks_before(sort_by, #[trigger] output[j], #[trigger] output[i])
    &&& forall|i: int, j: int|
        0 <= i < j < output.len() && ranks_tied(sort_by, #[trigger] output[i], #[trigger] output[j])
            ==> perm[i] < perm[j]
}

/// `output` is a stable sort of `input` in rank order (what `sort_by` with
/// that comparator gives).
pub open spec fn is_stable_ranking(
    input: Seq<ProcessInfo>,
    output: Seq<ProcessInfo>,
    sort_by: TopProcessSort,
) -> bool {
    exists|perm: Seq<int>| ranking_by(input, output, perm, sort_by)
}

/// Index `a` of `input` comes before index `b` in a stable ranking.
pub open spec fn index_before(input: Seq<ProcessInfo>, sort_by: TopProcessSort, a: int, b: int) -> bool {
    ranks_before(sort_by, input[a], input[b]) || (ranks_tied(sort_by, input[a], input[b]) && a < b)
}

proof fn lemma_ranking_orders_indices(
    input: Seq<ProcessInfo>,
    output: Seq<ProcessInfo>,
    perm: Seq<int>,
    sort_by: TopProcessSort,
    i: int,
    j: int,
)
    requires
        ranking_by(input, output, perm, sort_by),
        0 <= i < j < perm.len(),
    ensures
        index_before(input, sort_by, perm[i], perm[j]),
{
    assert(output[i] == input[perm[i]]);
    assert(output[j] == input[perm[j]]);
}

/// A stable ranking of a list is unique: the contract of
/// `sort_and_limit_processes` fixes its result.
pub proof fn lemma_stable_ranking_unique(
    input: Seq<ProcessInfo>,
    first: Seq<ProcessInfo>,
    second: Seq<ProcessInfo>,
    sort_by: TopProcessSort,
)
    requires
        is_stable_ranking(input, first, sort_by),
        is_stable_ranking(input, second, sort_by),
    ensures
        first == second,
{
    let p1 = choose|perm: Seq<int>| ranking_by(input, first, perm, sort_by);
    let p2 = choose|perm: Seq<int>| ranking_by(input, second, perm, sort_by);
    lemma_same_ranking_permutation(input, first, second, p1, p2, sort_by, p1.len() as nat);
    assert forall|i: int| 0 <= i < first.len() implies first[i] == second[i] by {
        assert(first[i] == input[p1[i]]);
        assert(second[i] == input[p2[i]]);
    }
    assert(first =~= second);
}

proof fn lemma_same_ranking_permutation(
    input: Seq<ProcessInfo>,
    first: Seq<ProcessInfo>,
    second: Seq<ProcessInfo>,
    p1: Seq<int>,
    p2: Seq<int>,
    sort_by: TopProcessSort,
    n: nat,
)
    requires
        ranking_by(input, first, p1, sort_by),
        ranking_by(input, second, p2, sort_by),
        n <= p1.len(),
    ensures
        forall|j: int| 0 <= j < n ==> p1[j] == p2[j],
    decreases n,
{
    if n > 0 {
        let i = (n - 1) as int;
        lemma_same_ranking_permutation(input, first, second, p1, p2, sort_by, (n - 1) as nat);
        let a = p1[i];
        let b = p2[i];
        assert(takes_place(p1, b));
        assert(takes_place(p2, a));
        let m = choose|m: int| 0 <= m < p1.len() && p1[m] == b;
        let m2 = choose|m: int| 0 <= m < p2.len() && p2[m] == a;
        if m < i {
            assert(p2[m] == b);
        }
        if m2 < i {
            assert(p1[m2] == a);
        }
        if m > i {
            lemma_ranking_orders_indices(input, first, p1, sort_by, i, m);
        }
        if m2 > i {
            lemma_ranking_orders_indices(input, second, p2, sort_by, i, m2);
        }
    }
}

/// A ranking puts the heaviest first: by memory, no process holds more
/// bytes than one before it; by CPU, none has a higher `f32::total_cmp` key
/// than one before it; on equal usage the lower pid comes first. The first
/// process of the ranking is at least as heavy as every process given.
pub proof fn lemma_ranking_heaviest_first(
    input: Seq<ProcessInfo>,
    sorted: Seq<ProcessInfo>,
    sort_by: TopProcessSort,
)
    requires
        is_stable_ranking(input, sorted, sort_by),
    ensures
        sorted.len() == input.len(),
        sort_by == TopProcessSort::Memory ==> forall|i: int, j: int|
            0 <= i < j < sorted.len() ==> (#[trigger] sorted[i]).memory_bytes >= (
            #[trigger] sorted[j]).memory_bytes && (sorted[i].memory_bytes == sorted[j].memory_bytes
                ==> sorted[i].pid <= sorted[j].pid),
        sort_by == TopProcessSort::Cpu ==> forall|i: int, j: int|
            0 <= i < j < sorted.len() ==> f32_total_key((#[trigger] sorted[i]).cpu_percent.bits)
                >= f32_total_key((#[trigger] sorted[j]).cpu_percent.bits) && (f32_total_key(
                sorted[i].cpu_percent.bits,
            ) == f32_total_key(sorted[j].cpu_percent.bits) ==> sorted[i].pid <= sorted[j].pid),
        sort_by == TopProcessSort::Memory ==> forall|k: int|
            0 <= k < input.len() ==> sorted[0].memory_bytes >= (#[trigger] input[k]).memory_bytes,
        sort_by == TopProcessSort::Cpu ==> forall|k: int|
            0 <= k < input.len() ==> f32_total_key(sorted[0].cpu_percent.bits) >= f32_total_key(
                (#[trigger] input[k]).cpu_percent.bits,
            ),
{
    let perm = choose|perm: Seq<int>| ranking_by(input, sorted, perm, sort_by);
    assert forall|i: int, j: int| 0 <= i < j < sorted.len() implies !ranks_before(
        sort_by,
        #[trigger] sorted[j],
        #[trigger] sorted[i],
    ) by {}
    assert forall|k: int| 0 <= k < input.len() implies (sort_by == TopProcessSort::Memory
        ==> sorted[0].memory_bytes >= (#[trigger] input[k]).memory_bytes) && (sort_by
        == TopProcessSort::Cpu ==> f32_total_key(sorted[0].cpu_percent.bits) >= f32_total_key(
        input[k].cpu_percent.bits,
    )) by {
        assert(takes_place(perm, k));
        let m = choose|m: int| 0 <= m < perm.len() && perm[m] == k;
        assert(sorted[m] == input[k]);
        if m > 0 {
            assert(!ranks_before(sort_by, sorted[m], sorted[0]));
        }
    }
}

/// The first `limit` of a sequence (all of it when shorter).
pub open spec fn first_n(items: Seq<ProcessInfo>, limit: nat) -> Seq<ProcessInfo> {
    if limit < items.len() {
        items.take(limit as int)
    } else {
        items
    }
}

fn ranks_before_exec(sort_by: TopProcessSort, a: &ProcessInfo, b: &ProcessInfo) -> (r: bool)
    ensures
        r == ranks_before(sort_by, *a, *b),
{
    match sort_by {
        TopProcessSort::Cpu => {
            let ka = a.cpu_percent.total_key();
            let kb = b.cpu_percent.total_key();
            ka > kb || (ka == kb && a.pid < b.pid)
        },
        TopProcessSort::Memory => a.memory_bytes > b.memory_bytes || (a.memory_bytes
            == b.memory_bytes && a.pid < b.pid),
    }
}

/// Sorts `processes` in rank order (stably) and keeps the first `limit`.
pub fn sort_and_limit_processes(
    processes: Vec<ProcessInfo>,
    sort_by: TopProcessSort,
    limit: usize,
) -> (r: Vec<ProcessInfo>)
    ensures
        exists|sorted: Seq<ProcessInfo>|
            is_stable_ranking(processes@, sorted, sort_by) && r@ == first_n(sorted, limit as nat),
        r@.len() == if limit < processes@.len() {
            limit as int
        } else {
            processes@.len() as int
        },
        sort_by == TopProcessSort::Memory ==> forall|i: int, j: int|
            0 <= i < j < r@.len() ==> (#[trigger] r@[i]).memory_bytes >= (#[trigger] r@[j]).memory_bytes,
        sort_by == TopProcessSort::Cpu ==> forall|i: int, j: int|
            0 <= i < j < r@.len() ==> f32_total_key((#[trigger] r@[i]).cpu_percent.bits)
                >= f32_total_key((#[trigger] r@[j]).cpu_percent.bits),
{
    let ghost input = processes@;
    let mut rest = processes;
    let mut out: Vec<ProcessInfo> = Vec::new();
    let ghost mut perm: Seq<int> = Seq::empty();
    let n = rest.len();
    let mut k: usize = 0;
    while k < n
        invariant
            n == input.len(),
            k <= n,
            rest@ == input.skip(k as int),
            ranking_by(input.take(k as int), out@, perm, sort_by),
        decreases n - k,
    {
        let x = rest.remove(0);
        proof {
            assert(x == input[k as int]);
            assert(input.skip(k as int).remove(0) =~= input.skip(k + 1));
        }
        let mut p: usize = 0;
        while p < out.len() && !ranks_before_exec(sort_by, &x, &out[p])
            invariant
                p <= out@.len(),
                forall|i: int| 0 <= i < p ==> !ranks_before(sort_by, x, #[trigger] out@[i]),
            decreases out@.len() - p,
        {
            p = p + 1;
        }
        let ghost old_out = out@;
        let ghost old_perm = perm;
        out.insert(p, x);
        proof {
            perm = old_perm.insert(p as int, k as int);
            let prev = input.take(k as int);
            let next = input.take(k + 1);
            assert(next.len() == k + 1);
            assert forall|i: int| 0 <= i < prev.len() implies next[i] == prev[i] by {}
            assert(next[k as int] == x);
            assert forall|i: int|
                0 <= i < perm.len() implies 0 <= #[trigger] perm[i] < next.len() && out@[i]
                == next[perm[i]] by {
                if i < p {
                    assert(perm[i] == old_perm[i]);
                    assert(out@[i] == old_out[i]);
                } else if i > p {
                    assert(perm[i] == old_perm[i - 1]);
                    assert(out@[i] == old_out[i - 1]);
                }
            }
            assert forall|i: int, j: int| 0 <= i < j < perm.len() implies perm[i] != perm[j] by {
                if i != p && j != p {
                    let oi = if i < p { i } else { i - 1 };
                    let oj = if j < p { j } else { j - 1 };
                    assert(perm[i] == old_perm[oi]);
                    assert(perm[j] == old_perm[oj]);
                } else if i == p {
                    let oj = j - 1;
                    assert(perm[j] == old_perm[oj]);
                    assert(old_perm[oj] < prev.len());
                } else {
                    assert(perm[i] == old_perm[i]);
                    assert(old_perm[i] < prev.len());
                }
            }
            assert forall|i: int, j: int| 0 <= i < j < out@.len() implies !ranks_before(
                sort_by,
                #[trigger] out@[j],
                #[trigger] out@[i],
            ) by {
                if i != p && j != p {
                    let oi = if i < p { i } else { i - 1 };
                    let oj = if j < p { j } else { j - 1 };
                    assert(out@[i] == old_out[oi]);
                    assert(out@[j] == old_out[oj]);
                } else if i == p {
                    let oj = j - 1;
                    assert(out@[j] == old_out[oj]);
                    assert(ranks_before(sort_by, x, old_out[p as int]));
                    if oj > p {
                        assert(!ranks_before(sort_by, old_out[oj], old_out[p as int]));
                    }
                } else {
                    assert(out@[i] == old_out[i]);
                }
            }
            assert forall|i: int, j: int|
                0 <= i < j < out@.len() && ranks_tied(sort_by, #[trigger] out@[i], #[trigger] out@[j])
                    implies perm[i] < perm[j] by {
                if i != p && j != p {
                    let oi = if i < p { i } else { i - 1 };
                    let oj = if j < p { j } else { j - 1 };
                    assert(out@[i] == old_out[oi]);
                    assert(out@[j] == old_out[oj]);
                    assert(perm[i] == old_perm[oi]);
                    assert(perm[j] == old_perm[oj]);
                } else if i == p {
                    let oj = j - 1;
                    assert(out@[j] == old_out[oj]);
                    assert(ranks_before(sort_by, x, old_out[p as int]));
                    if oj > p {
                        assert(!ranks_before(sort_by, old_out[oj], old_out[p as int]));
                    }
                } else {
                    assert(perm[i] == old_perm[i]);
                    assert(old_perm[i] < prev.len());
                }
            }
            assert forall|t: int| 0 <= t < next.len() implies #[trigger] takes_place(perm, t) by {
                if t == k {
                    assert(perm[p as int] == t);
                } else {
                    assert(takes_place(old_perm, t));
                    let i0 = choose|i: int| 0 <= i < old_perm.len() && old_perm[i] == t;
                    if i0 < p {
                        assert(perm[i0] == t);
                    } else {
                        assert(perm[i0 + 1] == t);
                    }
                }
            }
            assert(ranking_by(next, out@, perm, sort_by));
        }
        k = k + 1;
    }
    proof {
        assert(input.take(n as int) =~= input);
        assert(ranking_by(input, out@, perm, sort_by));
    }
    let ghost sorted = out@;
    out.truncate(limit);
    proof {
        if limit < sorted.len() {
            assert(out@ =~= sorted.take(limit as int));
        }
        assert(is_stable_ranking(input, sorted, sort_by));
        assert(out@ == first_n(sorted, limit as nat));
        lemma_ranking_heaviest_first(input, sorted, sort_by);
        assert forall|i: int| 0 <= i < out@.len() implies #[trigger] out@[i] == sorted[i] by {}
    }
    out
}

#[derive(Clone, Copy, Debug)]
pub struct ProcessCollector {
    sort_by: TopProcessSort,
    limit: usize,
}

impl ProcessCollector {
    pub closed spec fn sort_by_spec(self) -> TopProcessSort {
        self.sort_by
    }

    pub closed spec fn limit_spec(self) -> usize {
        self.limit
    }

    pub fn new(sort_by: TopProcessSort, limit: usize) -> (r: ProcessCollector)
        ensures
            r.sort_by_spec() == sort_by,
            r.limit_spec() == limit,
    {
        ProcessCollector { sort_by, limit }
    }

    pub fn sort_by(&self) -> (r: TopProcessSort)
        ensures
            r == self.sort_by_spec(),
    {
        self.sort_by
    }

    pub fn limit(&self) -> (r: usize)
        ensures
            r == self.limit_spec(),
    {
        self.limit
    }

    /// The ranking this collector makes of the processes it is handed: sorted
    /// by its key, the first `limit` kept.
    pub fn rank(&self, processes: Vec<ProcessInfo>) -> (r: Vec<ProcessInfo>)
        ensures
            exists|sorted: Seq<ProcessInfo>|
                is_stable_ranking(processes@, sorted, self.sort_by_spec()) && r@ == first_n(
                    sorted,
                    self.limit_spec() as nat,
                ),
        self.sort_by_spec() == TopProcessSort::Memory ==> forall|i: int, j: int|
            0 <= i < j < r@.len() ==> (#[trigger] r@[i]).memory_bytes >= (#[trigger] r@[j]).memory_bytes,
        self.sort_by_spec() == TopProcessSort::Cpu ==> forall|i: int, j: int|
            0 <= i < j < r@.len() ==> f32_total_key((#[trigger] r@[i]).cpu_percent.bits)
                >= f32_total_key((#[trigger] r@[j]).cpu_percent.bits),
    {
        let ghost input = processes@;
        let r = sort_and_limit_processes(processes, self.sort_by, self.limit);
        proof {
            let sorted = choose|sorted: Seq<ProcessInfo>|
                is_stable_ranking(input, sorted, self.sort_by) && r@ == first_n(sorted, self.limit as nat);
            assert(is_stable_ranking(input, sorted, self.sort_by_spec()) && r@ == first_n(
                sorted,
                self.limit_spec() as nat,
            ));
        }
        r
    }
}

impl Default for ProcessCollector {
    /// Ranks by CPU and keeps ten.
    fn default() -> (r: ProcessCollector)
        ensures
            r.sort_by_spec() == TopProcessSort::Cpu,
            r.limit_spec() == 10,
    {
        ProcessCollector::new(TopProcessSort::Cpu, 10)
    }
}

} // verus!
