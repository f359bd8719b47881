use procmon::datetime::parse_datetime;
use procmon::monitor::Monitor;
use procmon::record::{ProcessInfo, ProcessStatus};

fn rec(pid: u32, name: &str, cpu: u64, mem: u64) -> ProcessInfo {
    ProcessInfo {
        pid,
        name: name.to_string(),
        cpu_usage: cpu,
        memory_usage: mem,
        parent_pid: None,
        start_time: 0,
        status: ProcessStatus::Running,
        user: Some("alice".to_string()),
        nice: 0,
        start_time_str: "2024-01-01 00:00:00".to_string(),
    }
}

#[test]
fn end_to_end_exit_detection_and_history_collection() {
    let mut mon = Monitor::new(60, 0, 1, 0, 100);
    let exit_secs = parse_datetime("2024-01-01 00:05:00").unwrap();

    // Tick 1: two processes; both get history.
    mon.tick(
        vec![rec(10, "a", 1000, 1024 * 1024), rec(20, "b", 2000, 2 * 1024 * 1024)],
        &vec![(100, 200)],
        1,
        exit_secs - 60,
    );
    assert_eq!(mon.graph.get_cpu_history().as_slice(), &[3000]);
    assert!(mon.graph.get_process_history(10).is_some());
    assert!(mon.graph.get_process_history(20).is_some());
    assert_eq!(mon.exit_log.len(), 0);

    // Tick 2: process 20 disappears.
    mon.tick(vec![rec(10, "a", 500, 1024 * 1024)], &vec![(150, 300)], 2, exit_secs);
    assert_eq!(mon.exit_log.len(), 1);
    let e = &mon.exit_log.entries()[0];
    assert_eq!(e.pid, 20);
    assert_eq!(e.name, "b");
    assert_eq!(e.user.as_deref(), Some("alice"));
    assert_eq!(e.exit_time_secs, exit_secs);
    assert_eq!(e.uptime_secs, 300);
    // Its history is garbage-collected; the survivor's grew.
    assert!(mon.graph.get_process_history(20).is_none());
    let ten = mon.graph.get_process_history(10).unwrap();
    assert_eq!(ten.cpu.samples().as_slice(), &[1000, 500]);
    // Per-core usage after the second counter reading.
    assert_eq!(mon.graph.get_cpu_infos()[0].usage, 5000);
}

#[test]
fn a_pid_returning_is_not_an_exit() {
    let mut mon = Monitor::new(8, 0, 0, 0, 10);
    mon.tick(vec![rec(10, "a", 0, 0)], &Vec::new(), 1, 100);
    mon.tick(vec![rec(10, "a", 0, 0), rec(11, "new", 0, 0)], &Vec::new(), 2, 200);
    assert_eq!(mon.exit_log.len(), 0);
}

#[test]
fn filter_changes_between_ticks_do_not_log_exits() {
    // `set_filter` recomputes visibility at once, so the pid leaves the
    // visible list before the next tick captures its previous pid set: the
    // disappearance is a filtering choice, not a process exit.
    let mut mon = Monitor::new(8, 0, 0, 0, 10);
    mon.tick(vec![rec(1, "bash", 0, 0), rec(2, "zsh", 0, 0)], &Vec::new(), 1, 100);
    mon.manager.set_filter(
        Some(procmon::process::FilterMode::Name),
        Some("bash".to_string()),
    );
    mon.tick(vec![rec(1, "bash", 0, 0), rec(2, "zsh", 0, 0)], &Vec::new(), 2, 200);
    assert_eq!(mon.exit_log.len(), 0);
    let pids: Vec<u32> = mon.manager.get_processes().iter().map(|p| p.pid).collect();
    assert_eq!(pids, vec![1]);
}
