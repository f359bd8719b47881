//! The process record: one process as seen at one snapshot instant, built
//! fresh on every refresh tick and never mutated in place.
use vstd::prelude::*;

verus! {

/// Enumerated scheduling state of a process at snapshot time.
#[derive(Clone, Copy, Debug, PartialEq, Eq, Structural)]
pub enum ProcessStatus {
    Running,
    Sleeping,
    Stopped,
    Zombie,
    Other,
}

impl ProcessStatus {
    /// Short display label for the status column.
    pub fn label(&self) -> (r: &'static str)
        ensures
            r@ == self.spec_label(),
    {
        match self {
            ProcessStatus::Running => "Running",
            ProcessStatus::Sleeping => "Sleeping",
            ProcessStatus::Stopped => "Stopped",
            ProcessStatus::Zombie => "Zombie",
            ProcessStatus::Other => "Other",
        }
    }

    pub open spec fn spec_label(self) -> Seq<char> {
        match self {
            ProcessStatus::Running => "Running"@,
            ProcessStatus::Sleeping => "Sleeping"@,
            ProcessStatus::Stopped => "Stopped"@,
            ProcessStatus::Zombie => "Zombie"@,
            ProcessStatus::Other => "Other"@,
        }
    }
}

/// One process at one snapshot instant.
///
/// `cpu_usage` is an instantaneous percentage in hundredths of a percent
/// (`1234` is `12.34 %`), `memory_usage` is resident bytes, `start_time` is
/// seconds since boot, and `start_time_str` is the wall-clock rendering of
/// the start instant that the display columns and the exit log use.
pub struct ProcessInfo {
    pub pid: u32,
    pub name: String,
    pub cpu_usage: u64,
    pub memory_usage: u64,
    pub parent_pid: Option<u32>,
    pub start_time: u64,
    pub status: ProcessStatus,
    pub user: Option<String>,
    pub nice: i32,
    pub start_time_str: String,
}

impl ProcessInfo {
    /// The niceness range the scheduler accepts.
    pub open spec fn nice_in_range(self) -> bool {
        -20 <= self.nice <= 19
    }
}

impl Clone for ProcessInfo {
    fn clone(&self) -> (r: Self)
        ensures
            r == *self,
    {
        ProcessInfo {
            pid: self.pid,
            name: self.name.clone(),
            cpu_usage: self.cpu_usage,
            memory_usage: self.memory_usage,
            parent_pid: self.parent_pid,
            start_time: self.start_time,
            status: self.status,
            user: clone_opt_string(&self.user),
            nice: self.nice,
            start_time_str: self.start_time_str.clone(),
        }
    }
}

/// Clones an optional string, keeping its view.
pub fn clone_opt_string(s: &Option<String>) -> (r: Option<String>)
    ensures
        r == *s,
{
    match s {
        Some(v) => Some(v.clone()),
        None => None,
    }
}

/// No two records of the sequence share a pid: the invariant of every
/// snapshot the registry publishes.
pub open spec fn unique_pids(s: Seq<ProcessInfo>) -> bool {
    forall|i: int, j: int| 0 <= i < j < s.len() ==> s[i].pid != s[j].pid
}

/// The sequence holds a record with the given pid.
pub open spec fn has_pid(s: Seq<ProcessInfo>, pid: u32) -> bool {
    exists|i: int| 0 <= i < s.len() && s[i].pid == pid
}

/// Exec lookup: whether any record of the slice carries the pid.
pub fn contains_pid(v: &Vec<ProcessInfo>, pid: u32) -> (r: bool)
    ensures
        r == has_pid(v@, pid),
{
    let mut i: usize = 0;
    while i < v.len()
        invariant
            i <= v@.len(),
            forall|k: int| 0 <= k < i ==> v@[k].pid != pid,
        decreases v@.len() - i,
    {
        if v[i].pid == pid {
            return true;
        }
        i = i + 1;
    }
    false
}

} // verus!
