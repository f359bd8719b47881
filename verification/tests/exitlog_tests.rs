use procmon::datetime::parse_datetime;
use procmon::process_log::{ExitLog, LogGroupMode};
use procmon::record::{ProcessInfo, ProcessStatus};

fn rec(pid: u32, name: &str, user: Option<&str>, start: &str) -> ProcessInfo {
    ProcessInfo {
        pid,
        name: name.to_string(),
        cpu_usage: 0,
        memory_usage: 0,
        parent_pid: None,
        start_time: 0,
        status: ProcessStatus::Running,
        user: user.map(|u| u.to_string()),
        nice: 0,
        start_time_str: start.to_string(),
    }
}

#[test]
fn detect_exits_appends_one_entry_per_vanished_pid() {
    let mut log = ExitLog::new(100);
    let prev = vec![
        rec(10, "a", None, "2024-01-01 00:00:00"),
        rec(20, "b", None, "2024-01-01 00:00:00"),
        rec(30, "c", None, "2024-01-01 00:00:00"),
    ];
    let cur = vec![rec(20, "b", None, "2024-01-01 00:00:00")];
    log.detect_exits(&prev, &cur, 0);
    let pids: Vec<u32> = log.entries().iter().map(|e| e.pid).collect();
    assert_eq!(pids, vec![10, 30]);
}

#[test]
fn no_exits_appends_nothing() {
    let mut log = ExitLog::new(100);
    let prev = vec![rec(1, "a", None, "x")];
    log.detect_exits(&prev, &prev, 7);
    assert_eq!(log.len(), 0);
}

#[test]
fn uptime_is_derived_from_the_start_string() {
    let mut log = ExitLog::new(10);
    let start = "2024-05-05 10:00:00";
    let exit_secs = parse_datetime("2024-05-05 10:01:40").unwrap();
    let prev = vec![rec(20, "b", Some("alice"), start)];
    log.detect_exits(&prev, &Vec::new(), exit_secs);
    assert_eq!(log.entries().len(), 1);
    let e = &log.entries()[0];
    assert_eq!(e.pid, 20);
    assert_eq!(e.name, "b");
    assert_eq!(e.user.as_deref(), Some("alice"));
    assert_eq!(e.start_time, start);
    assert_eq!(e.exit_time_secs, exit_secs);
    assert_eq!(e.uptime_secs, 100);
}

#[test]
fn unparsable_start_still_records_the_exit_with_zero_uptime() {
    let mut log = ExitLog::new(10);
    let prev = vec![rec(9, "ghost", None, "??")];
    log.detect_exits(&prev, &Vec::new(), 5000);
    assert_eq!(log.entries().len(), 1);
    assert_eq!(log.entries()[0].uptime_secs, 0);
}

#[test]
fn log_is_a_bounded_fifo() {
    let mut log = ExitLog::new(2);
    let prev = vec![
        rec(1, "a", None, "x"),
        rec(2, "b", None, "x"),
        rec(3, "c", None, "x"),
    ];
    log.detect_exits(&prev, &Vec::new(), 0);
    let pids: Vec<u32> = log.entries().iter().map(|e| e.pid).collect();
    assert_eq!(pids, vec![2, 3]);
}

#[test]
fn filtered_matches_name_user_and_pid() {
    let mut log = ExitLog::new(10);
    let prev = vec![
        rec(12, "bash", Some("Alice"), "x"),
        rec(34, "cargo", Some("bob"), "x"),
        rec(56, "zsh", None, "x"),
    ];
    log.detect_exits(&prev, &Vec::new(), 0);
    let by_name: Vec<u32> = log.filtered("ASH").iter().map(|e| e.pid).collect();
    assert_eq!(by_name, vec![12]);
    let by_user: Vec<u32> = log.filtered("alice").iter().map(|e| e.pid).collect();
    assert_eq!(by_user, vec![12]);
    let by_pid: Vec<u32> = log.filtered("5").iter().map(|e| e.pid).collect();
    assert_eq!(by_pid, vec![56]);
    assert_eq!(log.filtered("").len(), 3);
    assert_eq!(log.filtered("nothing-like-this").len(), 0);
}

#[test]
fn grouped_by_name_reports_exact_statistics() {
    let mut log = ExitLog::new(10);
    let e1 = parse_datetime("2024-01-01 00:00:10").unwrap();
    let e2 = parse_datetime("2024-01-01 00:00:40").unwrap();
    let prev1 = vec![rec(1, "worker", None, "2024-01-01 00:00:00")];
    log.detect_exits(&prev1, &Vec::new(), e1);
    let prev2 = vec![
        rec(2, "worker", None, "2024-01-01 00:00:00"),
        rec(3, "other", None, "2024-01-01 00:00:00"),
    ];
    log.detect_exits(&prev2, &Vec::new(), e2);
    let groups = log.grouped(LogGroupMode::Name);
    assert_eq!(groups.len(), 2);
    // Larger groups come first.
    assert_eq!(groups[0].key, "worker");
    assert_eq!(groups[0].count, 2);
    assert_eq!(groups[0].min_uptime, 10);
    assert_eq!(groups[0].max_uptime, 40);
    assert_eq!(groups[0].avg_uptime, 25);
    assert_eq!(groups[0].last_exit_secs, e2);
    assert_eq!(groups[1].key, "other");
    assert_eq!(groups[1].count, 1);
}

#[test]
fn grouped_by_user_buckets_missing_users_under_unknown() {
    let mut log = ExitLog::new(10);
    let prev = vec![
        rec(1, "a", Some("alice"), "x"),
        rec(2, "b", None, "x"),
        rec(3, "c", None, "x"),
    ];
    log.detect_exits(&prev, &Vec::new(), 0);
    let groups = log.grouped(LogGroupMode::User);
    assert_eq!(groups.len(), 2);
    assert_eq!(groups[0].key, "Unknown");
    assert_eq!(groups[0].count, 2);
    assert_eq!(groups[1].key, "alice");
    assert_eq!(groups[1].count, 1);
}
