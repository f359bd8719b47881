use procmon::graph::{CpuInfo, GraphData};
use procmon::process::ProcessManager;
use procmon::record::{ProcessInfo, ProcessStatus};

fn rec(pid: u32, name: &str, cpu: u64, mem: u64) -> ProcessInfo {
    ProcessInfo {
        pid,
        name: name.to_string(),
        cpu_usage: cpu,
        memory_usage: mem,
        parent_pid: None,
        start_time: 0,
        status: ProcessStatus::Running,
        user: None,
        nice: 0,
        start_time_str: "2024-01-01 00:00:00".to_string(),
    }
}

#[test]
fn core_usage_from_counter_deltas() {
    let mut c = CpuInfo::new();
    c.update(100, 200);
    c.update(150, 300);
    // Deltas are idle 50 of total 100: 100 * (1 - 50/100) = 50.00 %.
    assert_eq!(c.usage, 5000);
    assert_eq!(c.last_idle, 150);
    assert_eq!(c.last_total, 300);
}

#[test]
fn stalled_counters_leave_usage_unchanged() {
    let mut c = CpuInfo::new();
    c.update(100, 200);
    let before = c.usage;
    c.update(100, 200);
    assert_eq!(c.usage, before);
}

#[test]
fn fully_busy_core_reads_full_scale() {
    let mut c = CpuInfo::new();
    c.update(0, 1000);
    assert_eq!(c.usage, 10000);
}

#[test]
fn tick_appends_summed_cpu_and_memory() {
    let mut m = ProcessManager::new();
    m.refresh(vec![rec(10, "a", 1200, 3 * 1024 * 1024), rec(20, "b", 800, 1024 * 1024)]);
    let mut g = GraphData::new(60, 500, 1, 0);
    g.update(500, &vec![(100, 200)], &m);
    assert_eq!(g.get_cpu_history().as_slice(), &[2000]);
    assert_eq!(g.get_memory_history().as_slice(), &[4]);
    assert_eq!(g.get_cpu_infos()[0].usage, 5000);
}

#[test]
fn calls_faster_than_the_interval_are_no_ops() {
    let mut m = ProcessManager::new();
    m.refresh(vec![rec(10, "a", 100, 0)]);
    let mut g = GraphData::new(60, 500, 0, 0);
    g.update(499, &Vec::new(), &m);
    assert!(g.get_cpu_history().is_empty());
    g.update(500, &Vec::new(), &m);
    assert_eq!(g.get_cpu_history().len(), 1);
}

#[test]
fn per_process_history_grows_and_is_garbage_collected() {
    let mut m = ProcessManager::new();
    m.refresh(vec![rec(10, "a", 100, 1024 * 1024), rec(20, "b", 200, 0)]);
    let mut g = GraphData::new(60, 0, 0, 0);
    g.update(1, &Vec::new(), &m);
    assert!(g.get_process_history(10).is_some());
    assert!(g.get_process_history(20).is_some());
    m.refresh(vec![rec(10, "a", 300, 1024 * 1024)]);
    g.update(2, &Vec::new(), &m);
    let ten = g.get_process_history(10).unwrap();
    assert_eq!(ten.cpu.samples().as_slice(), &[100, 300]);
    assert_eq!(ten.mem.samples().as_slice(), &[1024 * 1024, 1024 * 1024]);
    assert!(g.get_process_history(20).is_none());
}

#[test]
fn global_history_is_bounded_fifo() {
    let mut m = ProcessManager::new();
    let mut g = GraphData::new(2, 0, 0, 0);
    for tick in 0..4u64 {
        m.refresh(vec![rec(1, "a", tick * 100, 0)]);
        g.update(tick + 1, &Vec::new(), &m);
    }
    assert_eq!(g.get_cpu_history().as_slice(), &[200, 300]);
}
