use procmon::process::{FilterMode, ProcessManager};
use procmon::record::{ProcessInfo, ProcessStatus};
use procmon::rules::{RuleEngine, include_from_eval, mem_centi_mb};
use procmon::ProcError;

fn rec(pid: u32, name: &str, cpu: u64, mem: u64) -> ProcessInfo {
    ProcessInfo {
        pid,
        name: name.to_string(),
        cpu_usage: cpu,
        memory_usage: mem,
        parent_pid: None,
        start_time: 0,
        status: ProcessStatus::Sleeping,
        user: None,
        nice: 0,
        start_time_str: "2024-01-01 00:00:00".to_string(),
    }
}

#[test]
fn empty_rule_admits_every_record() {
    let mut e = RuleEngine::new();
    e.set_rule(String::new());
    assert!(e.evaluate_for(&rec(1, "a", 0, 0)));
    assert!(e.evaluate_for(&rec(2, "b", 9999, u64::MAX)));
}

#[test]
fn blank_rule_admits_every_record() {
    let mut e = RuleEngine::new();
    e.set_rule("  \t\n".to_string());
    assert!(e.evaluate_for(&rec(1, "a", 500, 0)));
}

#[test]
fn unset_rule_admits_every_record() {
    let e = RuleEngine::new();
    assert!(e.evaluate_for(&rec(1, "a", 0, 0)));
}

#[test]
fn malformed_rule_excludes_the_record_without_aborting() {
    let mut e = RuleEngine::new();
    e.set_rule("cpu >".to_string());
    assert!(!e.evaluate_for(&rec(1, "a", 9000, 0)));
    assert!(!e.evaluate_for(&rec(2, "b", 0, 0)));
}

#[test]
fn malformed_rule_reports_expression_error() {
    let mut e = RuleEngine::new();
    e.set_rule("cpu >".to_string());
    assert_eq!(e.evaluate_checked(&rec(1, "a", 0, 0)), Err(ProcError::ExpressionError));
}

#[test]
fn cpu_threshold_rule_selects_by_percentage() {
    let mut e = RuleEngine::new();
    e.set_rule("cpu > 50.0".to_string());
    assert!(e.evaluate_for(&rec(1, "hot", 7550, 0)));
    assert!(!e.evaluate_for(&rec(2, "cool", 1000, 0)));
}

#[test]
fn mem_rule_sees_megabytes() {
    let mut e = RuleEngine::new();
    e.set_rule("mem >= 2.0".to_string());
    assert!(e.evaluate_for(&rec(1, "big", 0, 2 * 1024 * 1024)));
    assert!(!e.evaluate_for(&rec(2, "small", 0, 1024 * 1024)));
}

#[test]
fn name_and_pid_bindings_are_visible_to_the_rule() {
    let mut e = RuleEngine::new();
    e.set_rule("name == \"bash\" && pid == 42".to_string());
    assert!(e.evaluate_for(&rec(42, "bash", 0, 0)));
    assert!(!e.evaluate_for(&rec(42, "zsh", 0, 0)));
    assert!(!e.evaluate_for(&rec(41, "bash", 0, 0)));
}

#[test]
fn quotes_in_a_process_name_do_not_break_the_script() {
    let mut e = RuleEngine::new();
    e.set_rule("name == \"a\\\"b\"".to_string());
    assert!(e.evaluate_for(&rec(1, "a\"b", 0, 0)));
}

#[test]
fn include_from_eval_maps_errors_to_exclusion() {
    assert!(include_from_eval(Some(true)));
    assert!(!include_from_eval(Some(false)));
    assert!(!include_from_eval(None));
}

#[test]
fn mem_centi_mb_renders_hundredths() {
    assert_eq!(mem_centi_mb(2 * 1024 * 1024), 200);
    assert_eq!(mem_centi_mb(1024 * 1024 + 512 * 1024), 150);
    assert_eq!(mem_centi_mb(0), 0);
}

#[test]
fn active_rule_takes_precedence_over_structural_filter() {
    let mut m = ProcessManager::new();
    m.set_filter(Some(FilterMode::Name), Some("bash".to_string()));
    m.set_rule("pid == 2".to_string());
    m.refresh(vec![rec(1, "bash", 0, 0), rec(2, "zsh", 0, 0)]);
    let pids: Vec<u32> = m.get_processes().iter().map(|p| p.pid).collect();
    assert_eq!(pids, vec![2]);
}

#[test]
fn blank_rule_leaves_the_structural_filter_in_charge() {
    let mut m = ProcessManager::new();
    m.set_filter(Some(FilterMode::Name), Some("bash".to_string()));
    m.set_rule("   ".to_string());
    m.refresh(vec![rec(1, "bash", 0, 0), rec(2, "zsh", 0, 0)]);
    let pids: Vec<u32> = m.get_processes().iter().map(|p| p.pid).collect();
    assert_eq!(pids, vec![1]);
}

#[test]
fn rule_filters_the_visible_list_each_refresh() {
    let mut m = ProcessManager::new();
    m.set_rule("cpu > 10.0".to_string());
    m.refresh(vec![rec(1, "a", 500, 0), rec(2, "b", 1500, 0), rec(3, "c", 2500, 0)]);
    let pids: Vec<u32> = m.get_processes().iter().map(|p| p.pid).collect();
    assert_eq!(pids, vec![2, 3]);
}
