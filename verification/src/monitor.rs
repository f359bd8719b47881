//! The refresh tick, run strictly in sequence with no concurrent ticks: the
//! registry re-snapshots, the filtered and sorted list replaces the visible
//! one, the time-series store ingests the new snapshot, and the lifecycle
//! log diffs the previous visible pid set against the new one and records
//! every vanished pid. The pid set used for the diff is captured before the
//! snapshot replacement.
use vstd::prelude::*;
use crate::graph::GraphData;
use crate::process::ProcessManager;
use crate::process_log::{ExitLog, spec_append_capped, spec_exited, spec_exit_entry};
use crate::record::ProcessInfo;

verus! {

/// The telemetry core as one unit: registry, time-series store, exit log.
pub struct Monitor {
    pub manager: ProcessManager,
    pub graph: GraphData,
    pub exit_log: ExitLog,
}

impl Monitor {
    pub fn new(
        max_points: usize,
        update_interval_ms: u64,
        num_cores: usize,
        now_ms: u64,
        log_capacity: usize,
    ) -> (r: Self)
        ensures
            r.manager.visible() == Seq::<ProcessInfo>::empty(),
            r.graph.spec_cpu_history().len() == 0,
            r.graph.spec_max_points() == max_points,
            r.graph.spec_cpu_cap() == max_points,
            r.graph.spec_mem_cap() == max_points,
            r.graph.spec_interval_ms() == update_interval_ms,
            r.graph.spec_last_update_ms() == now_ms,
            r.exit_log@ == Seq::<crate::process_log::ProcessExitLogEntry>::empty(),
            r.exit_log.capacity() == log_capacity,
            r.exit_log.bounded(),
            !r.manager.spec_rule_active(),
            r.manager.spec_sort_mode() is None,
            r.manager.spec_filter_mode() is None,
    {
        Monitor {
            manager: ProcessManager::new(),
            graph: GraphData::new(max_points, update_interval_ms, num_cores, now_ms),
            exit_log: ExitLog::new(log_capacity),
        }
    }

    /// One refresh tick: snapshot in, filter and sort, ingest history, diff
    /// for exits. The exit log gains exactly the records of previously
    /// visible pids that are no longer visible, in order; the history store
    /// follows its own tick contract against the new visible list.
    pub fn tick(
        &mut self,
        snapshot: Vec<ProcessInfo>,
        core_counters: &Vec<(u64, u64)>,
        now_ms: u64,
        wall_clock_secs: u64,
    )
        ensures
            final(self).manager.spec_snapshot() == snapshot@,
            old(self).manager.same_settings(final(self).manager),
            final(self).manager.visible_consistent(),
            final(self).exit_log@ == spec_append_capped(
                old(self).exit_log@,
                old(self).exit_log.capacity(),
                spec_exited(old(self).manager.visible(), final(self).manager.visible()).map_values(
                    |p: ProcessInfo| spec_exit_entry(p, wall_clock_secs),
                ),
            ),
            final(self).exit_log.capacity() == old(self).exit_log.capacity(),
            old(self).exit_log.bounded() ==> final(self).exit_log.bounded(),
            old(self).graph.spec_elapsed(now_ms) < old(self).graph.spec_interval_ms()
                ==> final(self).graph == old(self).graph,
            old(self).graph.spec_elapsed(now_ms) >= old(self).graph.spec_interval_ms() ==> {
                &&& final(self).graph.spec_last_update_ms() == now_ms
                &&& final(self).graph.spec_cpu_history() == crate::series::spec_push_bounded(
                    old(self).graph.spec_cpu_history(),
                    old(self).graph.spec_cpu_cap(),
                    crate::graph::capped(crate::graph::sum_cpu(final(self).manager.visible())),
                )
                &&& final(self).graph.spec_memory_history() == crate::series::spec_push_bounded(
                    old(self).graph.spec_memory_history(),
                    old(self).graph.spec_mem_cap(),
                    crate::graph::capped(crate::graph::sum_mem(final(self).manager.visible()))
                        / 0x100000,
                )
                &&& final(self).graph.spec_entries().len() == final(self).manager.visible().len()
                &&& forall|k: int|
                    0 <= k < final(self).manager.visible().len() ==> (#[trigger] final(self).graph.spec_entries()[k]).pid
                        == final(self).manager.visible()[k].pid
            },
    {
        let prev = self.manager.refresh(snapshot);
        self.graph.update(now_ms, core_counters, &self.manager);
        let cur = self.manager.get_processes();
        self.exit_log.detect_exits(&prev, cur, wall_clock_secs);
    }
}

} // verus!
