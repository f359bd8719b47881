use procmon::control::{ProcessControl, SignalKind, signal_number};
use procmon::process::ProcessManager;
use procmon::ProcError;

/// A mock OS adapter: scripted outcomes, recorded calls.
struct MockOs {
    euid: u32,
    outcome: Result<(), i32>,
    signals: Vec<(u32, i32)>,
    priorities: Vec<(u32, i32)>,
}

impl MockOs {
    fn new(euid: u32, outcome: Result<(), i32>) -> Self {
        MockOs { euid, outcome, signals: Vec::new(), priorities: Vec::new() }
    }
}

impl ProcessControl for MockOs {
    fn send_signal(&mut self, pid: u32, signal: i32) -> Result<(), i32> {
        self.signals.push((pid, signal));
        self.outcome
    }

    fn set_os_priority(&mut self, pid: u32, nice: i32) -> Result<(), i32> {
        self.priorities.push((pid, nice));
        self.outcome
    }

    fn effective_uid(&mut self) -> u32 {
        self.euid
    }
}

#[test]
fn out_of_range_niceness_is_invalid_input() {
    let m = ProcessManager::new();
    let mut os = MockOs::new(1000, Ok(()));
    assert_eq!(m.set_niceness(&mut os, 42, 25), Err(ProcError::InvalidInput));
    assert_eq!(m.set_niceness(&mut os, 42, -21), Err(ProcError::InvalidInput));
    // Rejected before any OS call.
    assert!(os.priorities.is_empty());
}

#[test]
fn negative_niceness_without_privilege_is_denied() {
    let m = ProcessManager::new();
    let mut os = MockOs::new(1000, Ok(()));
    assert_eq!(m.set_niceness(&mut os, 42, -5), Err(ProcError::PermissionDenied));
    assert!(os.priorities.is_empty());
}

#[test]
fn negative_niceness_with_root_reaches_the_os() {
    let m = ProcessManager::new();
    let mut os = MockOs::new(0, Ok(()));
    assert_eq!(m.set_niceness(&mut os, 42, -5), Ok(()));
    assert_eq!(os.priorities, vec![(42, -5)]);
}

#[test]
fn valid_niceness_on_an_owned_process_succeeds() {
    let m = ProcessManager::new();
    let mut os = MockOs::new(1000, Ok(()));
    assert_eq!(m.set_niceness(&mut os, 42, 10), Ok(()));
    assert_eq!(os.priorities, vec![(42, 10)]);
}

#[test]
fn os_errnos_map_to_the_error_taxonomy() {
    let m = ProcessManager::new();
    let mut eperm = MockOs::new(1000, Err(1));
    assert_eq!(m.set_niceness(&mut eperm, 42, 5), Err(ProcError::PermissionDenied));
    let mut esrch = MockOs::new(1000, Err(3));
    assert_eq!(m.set_niceness(&mut esrch, 42, 5), Err(ProcError::NotFound));
    let mut eio = MockOs::new(1000, Err(5));
    assert_eq!(m.set_niceness(&mut eio, 42, 5), Err(ProcError::OsError(5)));
    let mut eacces = MockOs::new(1000, Err(13));
    assert_eq!(m.signal(&mut eacces, 42, SignalKind::Terminate), Err(ProcError::PermissionDenied));
}

#[test]
fn signal_kinds_carry_their_os_numbers() {
    assert_eq!(signal_number(SignalKind::Kill), 9);
    assert_eq!(signal_number(SignalKind::Stop), 19);
    assert_eq!(signal_number(SignalKind::Continue), 18);
    assert_eq!(signal_number(SignalKind::Terminate), 15);
}

#[test]
fn kill_and_stop_send_the_right_signals_once() {
    let m = ProcessManager::new();
    let mut os = MockOs::new(0, Ok(()));
    assert_eq!(m.kill_process(&mut os, 7), Ok(()));
    assert_eq!(m.stop_process(&mut os, 8), Ok(()));
    assert_eq!(m.signal(&mut os, 9, SignalKind::Continue), Ok(()));
    assert_eq!(os.signals, vec![(7, 9), (8, 19), (9, 18)]);
}

#[test]
fn a_failed_signal_is_not_retried() {
    let m = ProcessManager::new();
    let mut os = MockOs::new(0, Err(3));
    assert_eq!(m.kill_process(&mut os, 7), Err(ProcError::NotFound));
    assert_eq!(os.signals.len(), 1);
}
