use sysprobe::cli::TopSortKey;
use sysprobe::collectors::processes::{sort_and_limit_processes, ProcessCollector, TopProcessSort};
use sysprobe::float::Float32;
use sysprobe::snapshot::ProcessInfo;

fn process(pid: u32, name: &str, cpu_percent: f32, memory_bytes: u64) -> ProcessInfo {
    ProcessInfo {
        pid,
        name: name.to_owned(),
        cpu_percent: Float32::from_bits(cpu_percent.to_bits()),
        memory_bytes,
    }
}

fn mock_processes() -> Vec<ProcessInfo> {
    vec![
        process(1, "memory-heavy", 1.0, 900),
        process(2, "cpu-heavy", 90.0, 100),
        process(3, "balanced", 45.0, 500),
    ]
}

#[test]
fn sorts_by_cpu_descending_and_limits() {
    let sorted = sort_and_limit_processes(mock_processes(), TopProcessSort::Cpu, 2);

    let pids: Vec<_> = sorted.into_iter().map(|process| process.pid).collect();
    assert_eq!(pids, vec![2, 3]);
}

#[test]
fn sorts_by_memory_descending_and_limits() {
    let sorted = sort_and_limit_processes(mock_processes(), TopProcessSort::Memory, 2);

    let pids: Vec<_> = sorted.into_iter().map(|process| process.pid).collect();
    assert_eq!(pids, vec![1, 3]);
}

#[test]
fn ties_go_to_the_lower_pid_and_equal_entries_keep_their_order() {
    let processes = vec![
        process(9, "a", 5.0, 10),
        process(4, "b", 5.0, 10),
        process(4, "c", 5.0, 10),
        process(7, "d", 6.0, 10),
    ];
    let sorted = sort_and_limit_processes(processes, TopProcessSort::Cpu, 10);
    let names: Vec<_> = sorted.iter().map(|p| p.name.as_str()).collect();
    assert_eq!(names, vec!["d", "b", "c", "a"]);
}

#[test]
fn cpu_order_follows_total_cmp() {
    let processes = vec![
        process(1, "nan", f32::NAN, 0),
        process(2, "neg-zero", -0.0, 0),
        process(3, "zero", 0.0, 0),
        process(4, "inf", f32::INFINITY, 0),
        process(5, "neg", -3.0, 0),
    ];
    let mut expected = processes.clone();
    expected.sort_by(|left, right| {
        f32::from_bits(right.cpu_percent.bits)
            .total_cmp(&f32::from_bits(left.cpu_percent.bits))
            .then_with(|| left.pid.cmp(&right.pid))
    });
    let sorted = sort_and_limit_processes(processes, TopProcessSort::Cpu, 5);
    let got: Vec<_> = sorted.iter().map(|p| p.pid).collect();
    let want: Vec<_> = expected.iter().map(|p| p.pid).collect();
    assert_eq!(got, want);
    assert_eq!(got, vec![1, 4, 3, 2, 5]);
}

#[test]
fn limit_zero_keeps_nothing_and_empty_input_stays_empty() {
    assert!(sort_and_limit_processes(mock_processes(), TopProcessSort::Cpu, 0).is_empty());
    assert!(sort_and_limit_processes(Vec::new(), TopProcessSort::Memory, 3).is_empty());
}

#[test]
fn collector_ranks_with_its_key_and_limit() {
    let collector = ProcessCollector::new(TopSortKey::Memory.into(), 1);
    let ranked = collector.rank(mock_processes());
    assert_eq!(ranked.len(), 1);
    assert_eq!(ranked[0].pid, 1);
    let default = ProcessCollector::default();
    assert_eq!(default.limit(), 10);
    assert_eq!(default.sort_by(), TopProcessSort::Cpu);
    assert_eq!(TopProcessSort::from(TopSortKey::Cpu), TopProcessSort::Cpu);
}
