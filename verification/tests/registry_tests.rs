use procmon::process::{FilterMode, ProcessManager};
use procmon::record::{ProcessInfo, ProcessStatus};
use procmon::sort::SortKey;

fn rec(pid: u32, name: &str, cpu: u64, mem: u64) -> ProcessInfo {
    ProcessInfo {
        pid,
        name: name.to_string(),
        cpu_usage: cpu,
        memory_usage: mem,
        parent_pid: Some(1),
        start_time: 0,
        status: ProcessStatus::Running,
        user: Some("alice".to_string()),
        nice: 0,
        start_time_str: "2024-01-01 00:00:00".to_string(),
    }
}

fn pids(m: &ProcessManager) -> Vec<u32> {
    m.get_processes().iter().map(|p| p.pid).collect()
}

#[test]
fn empty_snapshot_yields_empty_list() {
    let mut m = ProcessManager::new();
    m.refresh(Vec::new());
    assert!(m.get_processes().is_empty());
}

#[test]
fn refresh_returns_previous_visible_list() {
    let mut m = ProcessManager::new();
    m.refresh(vec![rec(10, "a", 0, 0)]);
    let prev = m.refresh(vec![rec(20, "b", 0, 0)]);
    assert_eq!(prev.len(), 1);
    assert_eq!(prev[0].pid, 10);
    assert_eq!(pids(&m), vec![20]);
}

#[test]
fn name_filter_is_case_insensitive_substring() {
    let mut m = ProcessManager::new();
    m.set_filter(Some(FilterMode::Name), Some("SH".to_string()));
    m.refresh(vec![rec(1, "bash", 0, 0), rec(2, "cargo", 0, 0), rec(3, "zsh", 0, 0)]);
    assert_eq!(pids(&m), vec![1, 3]);
}

#[test]
fn pid_filter_matches_decimal_substring() {
    let mut m = ProcessManager::new();
    m.set_filter(Some(FilterMode::Pid), Some("2".to_string()));
    m.refresh(vec![rec(12, "a", 0, 0), rec(25, "b", 0, 0), rec(33, "c", 0, 0)]);
    assert_eq!(pids(&m), vec![12, 25]);
}

#[test]
fn user_filter_excludes_records_without_user() {
    let mut m = ProcessManager::new();
    let mut orphan = rec(7, "k", 0, 0);
    orphan.user = None;
    m.set_filter(Some(FilterMode::User), Some("ALICE".to_string()));
    m.refresh(vec![rec(1, "a", 0, 0), orphan]);
    assert_eq!(pids(&m), vec![1]);
}

#[test]
fn ppid_filter_matches_decimal_substring_of_parent() {
    let mut m = ProcessManager::new();
    let mut a = rec(1, "a", 0, 0);
    a.parent_pid = Some(40);
    let mut b = rec(2, "b", 0, 0);
    b.parent_pid = Some(15);
    let mut c = rec(3, "c", 0, 0);
    c.parent_pid = None;
    m.set_filter(Some(FilterMode::Ppid), Some("4".to_string()));
    m.refresh(vec![a, b, c]);
    assert_eq!(pids(&m), vec![1]);
}

#[test]
fn clearing_the_filter_restores_all_records() {
    let mut m = ProcessManager::new();
    m.refresh(vec![rec(1, "a", 0, 0), rec(2, "b", 0, 0)]);
    m.set_filter(Some(FilterMode::Name), Some("a".to_string()));
    assert_eq!(pids(&m), vec![1]);
    m.set_filter(None, None);
    assert_eq!(pids(&m), vec![1, 2]);
}

#[test]
fn sort_by_pid_both_directions() {
    let mut m = ProcessManager::new();
    m.refresh(vec![rec(3, "c", 0, 0), rec(1, "a", 0, 0), rec(2, "b", 0, 0)]);
    m.set_sort(SortKey::Pid, true);
    assert_eq!(pids(&m), vec![1, 2, 3]);
    m.set_sort(SortKey::Pid, false);
    assert_eq!(pids(&m), vec![3, 2, 1]);
}

#[test]
fn sort_by_cpu_is_stable_on_ties() {
    let mut m = ProcessManager::new();
    m.refresh(vec![rec(1, "a", 500, 0), rec(2, "b", 100, 0), rec(3, "c", 500, 0)]);
    m.set_sort(SortKey::Cpu, true);
    assert_eq!(pids(&m), vec![2, 1, 3]);
}

#[test]
fn sorting_twice_is_idempotent() {
    let mut m = ProcessManager::new();
    m.refresh(vec![rec(3, "c", 7, 9), rec(1, "a", 7, 2), rec(2, "b", 4, 9)]);
    m.set_sort(SortKey::Mem, false);
    let once = pids(&m);
    m.set_sort(SortKey::Mem, false);
    assert_eq!(pids(&m), once);
}

#[test]
fn sort_by_start_compares_formatted_strings() {
    let mut m = ProcessManager::new();
    let mut a = rec(1, "a", 0, 0);
    a.start_time_str = "2024-01-02 09:00:00".to_string();
    let mut b = rec(2, "b", 0, 0);
    b.start_time_str = "2024-01-01 23:00:00".to_string();
    m.refresh(vec![a, b]);
    m.set_sort(SortKey::Start, true);
    assert_eq!(pids(&m), vec![2, 1]);
}

#[test]
fn refresh_reapplies_filter_and_sort() {
    let mut m = ProcessManager::new();
    m.set_filter(Some(FilterMode::Name), Some("s".to_string()));
    m.set_sort(SortKey::Pid, false);
    m.refresh(vec![rec(5, "bash", 0, 0), rec(9, "zsh", 0, 0), rec(2, "cargo", 0, 0)]);
    assert_eq!(pids(&m), vec![9, 5]);
}
