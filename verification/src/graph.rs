//! The multi-level time-series store: one bounded history of system-wide
//! CPU and memory, one per-core usage gauge fed by kernel counter deltas,
//! and one bounded pair of histories per live pid. A tick closer than the
//! configured interval to the previous one is a no-op; per-pid histories of
//! pids absent from the latest snapshot are dropped on every tick.
use vstd::prelude::*;
use crate::process::ProcessManager;
use crate::record::ProcessInfo;
use crate::series::{BoundedSeries, spec_push_bounded};

verus! {

/// One core's usage gauge and the counter values it was last fed.
///
/// `usage` is in hundredths of a percent (`5000` is `50.00 %`).
#[derive(Clone, Copy, Debug, PartialEq, Eq, Structural)]
pub struct CpuInfo {
    pub usage: u64,
    pub last_idle: u64,
    pub last_total: u64,
}

/// What one counter reading does to a core gauge: deltas against the last
/// reading give `100 * (1 - idle_delta / total_delta)`; a total delta of
/// zero (counters not advanced) leaves the usage unchanged rather than
/// dividing by zero, and a counter that moved backwards counts as zero.
pub open spec fn spec_core_usage(c: CpuInfo, idle: u64, total: u64) -> u64 {
    let di = if idle >= c.last_idle {
        idle - c.last_idle
    } else {
        0
    };
    let dt = if total >= c.last_total {
        total - c.last_total
    } else {
        0
    };
    if dt == 0 {
        c.usage
    } else {
        let used = if dt >= di {
            dt - di
        } else {
            0
        };
        ((10000 * used) / dt) as u64
    }
}

/// The gauge after one counter reading.
pub open spec fn spec_core_update(c: CpuInfo, idle: u64, total: u64) -> CpuInfo {
    CpuInfo { usage: spec_core_usage(c, idle, total), last_idle: idle, last_total: total }
}

impl CpuInfo {
    /// A fresh gauge: no usage, no counters seen yet.
    pub fn new() -> (r: Self)
        ensures
            r == (CpuInfo { usage: 0u64, last_idle: 0u64, last_total: 0u64 }),
    {
        CpuInfo { usage: 0, last_idle: 0, last_total: 0 }
    }

    /// Feeds one counter reading into the gauge.
    pub fn update(&mut self, idle: u64, total: u64)
        ensures
            *final(self) == spec_core_update(*old(self), idle, total),
            final(self).usage <= 10000 || final(self).usage == old(self).usage,
    {
        let di = if idle >= self.last_idle {
            idle - self.last_idle
        } else {
            0
        };
        let dt = if total >= self.last_total {
            total - self.last_total
        } else {
            0
        };
        if dt > 0 {
            let used = if dt >= di {
                dt - di
            } else {
                0
            };
            let usage128 = (10000u128 * (used as u128)) / (dt as u128);
            proof {
                vstd::arithmetic::div_mod::lemma_div_is_ordered(
                    10000 * (used as int),
                    10000 * (dt as int),
                    dt as int,
                );
                vstd::arithmetic::div_mod::lemma_div_multiples_vanish(10000, dt as int);
            }
            self.usage = usage128 as u64;
        }
        self.last_idle = idle;
        self.last_total = total;
    }
}

/// Sum of the instantaneous CPU percentages of a snapshot.
pub open spec fn sum_cpu(s: Seq<ProcessInfo>) -> int
    decreases s.len(),
{
    if s.len() == 0 {
        0
    } else {
        sum_cpu(s.drop_last()) + s.last().cpu_usage
    }
}

/// Sum of the resident bytes of a snapshot.
pub open spec fn sum_mem(s: Seq<ProcessInfo>) -> int
    decreases s.len(),
{
    if s.len() == 0 {
        0
    } else {
        sum_mem(s.drop_last()) + s.last().memory_usage
    }
}

/// A non-negative sum clamped into `u64`.
pub open spec fn capped(x: int) -> u64 {
    if x > u64::MAX {
        u64::MAX
    } else {
        x as u64
    }
}

/// The two bounded histories of one live pid.
pub struct ProcSeries {
    pub pid: u32,
    pub cpu: BoundedSeries,
    pub mem: BoundedSeries,
}

/// First entry of the list carrying the pid, if any.
pub open spec fn series_of(s: Seq<ProcSeries>, pid: u32) -> Option<ProcSeries>
    decreases s.len(),
{
    if s.len() == 0 {
        None
    } else if s[0].pid == pid {
        Some(s[0])
    } else {
        series_of(s.drop_first(), pid)
    }
}

/// The retained CPU history of a pid before a tick; empty for a new pid.
pub open spec fn prior_cpu(s: Seq<ProcSeries>, pid: u32) -> Seq<u64> {
    match series_of(s, pid) {
        Some(e) => e.cpu@,
        None => Seq::<u64>::empty(),
    }
}

/// The retained memory history of a pid before a tick; empty for a new pid.
pub open spec fn prior_mem(s: Seq<ProcSeries>, pid: u32) -> Seq<u64> {
    match series_of(s, pid) {
        Some(e) => e.mem@,
        None => Seq::<u64>::empty(),
    }
}

/// The CPU-series capacity a pid's history keeps across a tick: the old
/// series' own, or the configured length for a new pid.
pub open spec fn prior_cpu_cap(s: Seq<ProcSeries>, pid: u32, mp: nat) -> nat {
    match series_of(s, pid) {
        Some(e) => e.cpu.capacity(),
        None => mp,
    }
}

/// As `prior_cpu_cap`, for the memory series.
pub open spec fn prior_mem_cap(s: Seq<ProcSeries>, pid: u32, mp: nat) -> nat {
    match series_of(s, pid) {
        Some(e) => e.mem.capacity(),
        None => mp,
    }
}

/// A found first match pins down `series_of`.
proof fn lemma_series_first(s: Seq<ProcSeries>, pid: u32, i: int)
    requires
        0 <= i < s.len(),
        s[i].pid == pid,
        forall|k: int| 0 <= k < i ==> s[k].pid != pid,
    ensures
        series_of(s, pid) == Some(s[i]),
    decreases i,
{
    if i > 0 {
        assert(s.drop_first()[i - 1] == s[i]);
        lemma_series_first(s.drop_first(), pid, i - 1);
    }
}

/// No match anywhere means no series.
proof fn lemma_series_none(s: Seq<ProcSeries>, pid: u32)
    requires
        forall|k: int| 0 <= k < s.len() ==> s[k].pid != pid,
    ensures
        series_of(s, pid) is None,
    decreases s.len(),
{
    if s.len() > 0 {
        assert(forall|k: int| 0 <= k < s.drop_first().len() ==> s.drop_first()[k].pid != pid);
        lemma_series_none(s.drop_first(), pid);
    }
}

/// Index of the first entry with the pid.
fn find_series(entries: &Vec<ProcSeries>, pid: u32) -> (r: Option<usize>)
    ensures
        match r {
            Some(i) => i < entries@.len() && series_of(entries@, pid) == Some(entries@[i as int]),
            None => series_of(entries@, pid) is None,
        },
{
    let mut i: usize = 0;
    while i < entries.len()
        invariant
            i <= entries@.len(),
            forall|k: int| 0 <= k < i ==> entries@[k].pid != pid,
        decreases entries@.len() - i,
    {
        if entries[i].pid == pid {
            proof {
                lemma_series_first(entries@, pid, i as int);
            }
            return Some(i);
        }
        i = i + 1;
    }
    proof {
        lemma_series_none(entries@, pid);
    }
    None
}

/// The time-series store.
pub struct GraphData {
    cpu_history: BoundedSeries,
    memory_history: BoundedSeries,
    max_points: usize,
    last_update_ms: u64,
    update_interval_ms: u64,
    cpu_infos: Vec<CpuInfo>,
    per_process: Vec<ProcSeries>,
}

impl GraphData {
    pub closed spec fn spec_cpu_history(self) -> Seq<u64> {
        self.cpu_history@
    }

    pub closed spec fn spec_memory_history(self) -> Seq<u64> {
        self.memory_history@
    }

    pub closed spec fn spec_cpu_infos(self) -> Seq<CpuInfo> {
        self.cpu_infos@
    }

    pub closed spec fn spec_entries(self) -> Seq<ProcSeries> {
        self.per_process@
    }

    pub closed spec fn spec_max_points(self) -> nat {
        self.max_points as nat
    }

    /// The capacity the system CPU history was created with.
    pub closed spec fn spec_cpu_cap(self) -> nat {
        self.cpu_history.capacity()
    }

    /// The capacity the system memory history was created with.
    pub closed spec fn spec_mem_cap(self) -> nat {
        self.memory_history.capacity()
    }

    pub closed spec fn spec_last_update_ms(self) -> u64 {
        self.last_update_ms
    }

    pub closed spec fn spec_interval_ms(self) -> u64 {
        self.update_interval_ms
    }

    /// Milliseconds since the last accepted tick; a clock that moved
    /// backwards counts as no time passed.
    pub open spec fn spec_elapsed(self, now_ms: u64) -> u64 {
        if now_ms >= self.spec_last_update_ms() {
            (now_ms - self.spec_last_update_ms()) as u64
        } else {
            0u64
        }
    }

    /// A fresh store: empty histories of capacity `max_points`, one zeroed
    /// gauge per core, and no per-pid series.
    pub fn new(max_points: usize, update_interval_ms: u64, num_cores: usize, now_ms: u64) -> (r:
        Self)
        ensures
            r.spec_cpu_history() == Seq::<u64>::empty(),
            r.spec_memory_history() == Seq::<u64>::empty(),
            r.spec_cpu_history().len() == 0 && r.spec_memory_history().len() == 0,
            r.spec_max_points() == max_points,
            r.spec_cpu_cap() == max_points,
            r.spec_mem_cap() == max_points,
            r.spec_last_update_ms() == now_ms,
            r.spec_interval_ms() == update_interval_ms,
            r.spec_cpu_infos().len() == num_cores,
            forall|i: int|
                0 <= i < num_cores ==> r.spec_cpu_infos()[i] == (CpuInfo {
                    usage: 0u64,
                    last_idle: 0u64,
                    last_total: 0u64,
                }),
            r.spec_entries() == Seq::<ProcSeries>::empty(),
    {
        let mut cpu_infos: Vec<CpuInfo> = Vec::new();
        let mut i: usize = 0;
        while i < num_cores
            invariant
                i <= num_cores,
                cpu_infos@.len() == i,
                forall|k: int|
                    0 <= k < i ==> cpu_infos@[k] == (CpuInfo {
                        usage: 0u64,
                        last_idle: 0u64,
                        last_total: 0u64,
                    }),
            decreases num_cores - i,
        {
            cpu_infos.push(CpuInfo::new());
            i = i + 1;
        }
        GraphData {
            cpu_history: BoundedSeries::new(max_points),
            memory_history: BoundedSeries::new(max_points),
            max_points,
            last_update_ms: now_ms,
            update_interval_ms,
            cpu_infos,
            per_process: Vec::new(),
        }
    }

    /// One refresh tick. A call closer than the configured interval to the
    /// previous accepted tick changes nothing (it is dropped, not queued).
    /// An accepted tick feeds the core gauges with their counter readings,
    /// appends the snapshot's summed CPU percentage and summed resident
    /// megabytes to the global histories, and rebuilds the per-pid series:
    /// every pid of the current visible snapshot keeps its history extended
    /// by one sample, every other pid's history is dropped.
    #[verifier::loop_isolation(false)]
    pub fn update(&mut self, now_ms: u64, core_counters: &Vec<(u64, u64)>, pm: &ProcessManager)
        ensures
            old(self).spec_elapsed(now_ms) < old(self).spec_interval_ms() ==> *final(self) == *old(
                self,
            ),
            old(self).spec_elapsed(now_ms) >= old(self).spec_interval_ms() ==> {
                let procs = pm.visible();
                &&& final(self).spec_last_update_ms() == now_ms
                &&& final(self).spec_interval_ms() == old(self).spec_interval_ms()
                &&& final(self).spec_max_points() == old(self).spec_max_points()
                &&& final(self).spec_cpu_cap() == old(self).spec_cpu_cap()
                &&& final(self).spec_mem_cap() == old(self).spec_mem_cap()
                &&& final(self).spec_cpu_history() == spec_push_bounded(
                    old(self).spec_cpu_history(),
                    old(self).spec_cpu_cap(),
                    capped(sum_cpu(procs)),
                )
                &&& final(self).spec_memory_history() == spec_push_bounded(
                    old(self).spec_memory_history(),
                    old(self).spec_mem_cap(),
                    capped(sum_mem(procs)) / 0x100000,
                )
                &&& final(self).spec_cpu_infos().len() == old(self).spec_cpu_infos().len()
                &&& forall|i: int|
                    0 <= i < old(self).spec_cpu_infos().len() ==> final(self).spec_cpu_infos()[i]
                        == (if i < core_counters@.len() {
                        spec_core_update(
                            old(self).spec_cpu_infos()[i],
                            core_counters@[i].0,
                            core_counters@[i].1,
                        )
                    } else {
                        old(self).spec_cpu_infos()[i]
                    })
                &&& final(self).spec_entries().len() == procs.len()
                &&& forall|k: int|
                    0 <= k < procs.len() ==> {
                        let e = #[trigger] final(self).spec_entries()[k];
                        let pid = procs[k].pid;
                        &&& e.pid == pid
                        &&& e.cpu@ == spec_push_bounded(
                            prior_cpu(old(self).spec_entries(), pid),
                            prior_cpu_cap(
                                old(self).spec_entries(),
                                pid,
                                old(self).spec_max_points(),
                            ),
                            procs[k].cpu_usage,
                        )
                        &&& e.mem@ == spec_push_bounded(
                            prior_mem(old(self).spec_entries(), pid),
                            prior_mem_cap(
                                old(self).spec_entries(),
                                pid,
                                old(self).spec_max_points(),
                            ),
                            procs[k].memory_usage,
                        )
                    }
            },
    {
        let elapsed = if now_ms >= self.last_update_ms {
            now_ms - self.last_update_ms
        } else {
            0
        };
        if elapsed < self.update_interval_ms {
            return ;
        }
        // Per-core gauges from counter deltas; cores without a reading keep
        // their state.
        let cores = self.cpu_infos.len();
        let mut i: usize = 0;
        while i < cores
            invariant
                i <= cores,
                cores == self.cpu_infos@.len(),
                self.cpu_infos@.len() == old(self).spec_cpu_infos().len(),
                self.spec_cpu_history() == old(self).spec_cpu_history(),
                self.spec_memory_history() == old(self).spec_memory_history(),
                self.spec_cpu_cap() == old(self).spec_cpu_cap(),
                self.spec_mem_cap() == old(self).spec_mem_cap(),
                self.spec_entries() == old(self).spec_entries(),
                self.spec_max_points() == old(self).spec_max_points(),
                self.spec_last_update_ms() == old(self).spec_last_update_ms(),
                self.spec_interval_ms() == old(self).spec_interval_ms(),
                forall|k: int|
                    0 <= k < i ==> self.cpu_infos@[k] == (if k < core_counters@.len() {
                        spec_core_update(
                            old(self).spec_cpu_infos()[k],
                            core_counters@[k].0,
                            core_counters@[k].1,
                        )
                    } else {
                        old(self).spec_cpu_infos()[k]
                    }),
                forall|k: int|
                    i <= k < self.cpu_infos@.len() ==> self.cpu_infos@[k] == old(
                        self,
                    ).spec_cpu_infos()[k],
            decreases cores - i,
        {
            if i < core_counters.len() {
                let (idle, total) = core_counters[i];
                let mut c = self.cpu_infos[i];
                c.update(idle, total);
                self.cpu_infos.set(i, c);
            }
            i = i + 1;
        }
        // Global histories from the snapshot's sums.
        let procs = pm.get_processes();
        let mut total_cpu: u64 = 0;
        let mut total_mem: u64 = 0;
        let mut k: usize = 0;
        proof {
            assert(procs@.subrange(0, 0) =~= Seq::<ProcessInfo>::empty());
        }
        while k < procs.len()
            invariant
                k <= procs@.len(),
                sum_cpu(procs@.subrange(0, k as int)) >= 0,
                sum_mem(procs@.subrange(0, k as int)) >= 0,
                total_cpu == capped(sum_cpu(procs@.subrange(0, k as int))),
                total_mem == capped(sum_mem(procs@.subrange(0, k as int))),
            decreases procs@.len() - k,
        {
            let ghost prefix = procs@.subrange(0, k as int);
            let c = procs[k].cpu_usage;
            let m = procs[k].memory_usage;
            total_cpu = if c > u64::MAX - total_cpu {
                u64::MAX
            } else {
                total_cpu + c
            };
            total_mem = if m > u64::MAX - total_mem {
                u64::MAX
            } else {
                total_mem + m
            };
            proof {
                assert(procs@.subrange(0, k as int + 1).drop_last() =~= prefix);
                assert(procs@.subrange(0, k as int + 1).last() == procs@[k as int]);
            }
            k = k + 1;
        }
        proof {
            assert(procs@.subrange(0, procs@.len() as int) =~= procs@);
        }
        self.cpu_history.push(total_cpu);
        self.memory_history.push(total_mem / 0x100000);
        // Per-pid series: rebuild against the current snapshot, so absent
        // pids are dropped and present ones are extended.
        let mut new_entries: Vec<ProcSeries> = Vec::new();
        let mut k: usize = 0;
        while k < procs.len()
            invariant
                k <= procs@.len(),
                new_entries@.len() == k,
                forall|t: int|
                    0 <= t < k ==> {
                        let e = #[trigger] new_entries@[t];
                        let pid = procs@[t].pid;
                        &&& e.pid == pid
                        &&& e.cpu@ == spec_push_bounded(
                            prior_cpu(old(self).spec_entries(), pid),
                            prior_cpu_cap(
                                old(self).spec_entries(),
                                pid,
                                old(self).spec_max_points(),
                            ),
                            procs@[t].cpu_usage,
                        )
                        &&& e.mem@ == spec_push_bounded(
                            prior_mem(old(self).spec_entries(), pid),
                            prior_mem_cap(
                                old(self).spec_entries(),
                                pid,
                                old(self).spec_max_points(),
                            ),
                            procs@[t].memory_usage,
                        )
                    },
            decreases procs@.len() - k,
        {
            let pid = procs[k].pid;
            let mut series = match find_series(&self.per_process, pid) {
                Some(i) => ProcSeries {
                    pid,
                    cpu: self.per_process[i].cpu.clone(),
                    mem: self.per_process[i].mem.clone(),
                },
                None => ProcSeries {
                    pid,
                    cpu: BoundedSeries::new(self.max_points),
                    mem: BoundedSeries::new(self.max_points),
                },
            };
            series.cpu.push(procs[k].cpu_usage);
            series.mem.push(procs[k].memory_usage);
            new_entries.push(series);
            k = k + 1;
        }
        self.per_process = new_entries;
        self.last_update_ms = now_ms;
    }

    /// The per-core gauges, one per detected core.
    pub fn get_cpu_infos(&self) -> (r: &Vec<CpuInfo>)
        ensures
            r@ == self.spec_cpu_infos(),
    {
        &self.cpu_infos
    }

    /// System CPU history, oldest first.
    pub fn get_cpu_history(&self) -> (r: &Vec<u64>)
        ensures
            r@ == self.spec_cpu_history(),
    {
        self.cpu_history.samples()
    }

    /// System memory history in megabytes, oldest first.
    pub fn get_memory_history(&self) -> (r: &Vec<u64>)
        ensures
            r@ == self.spec_memory_history(),
    {
        self.memory_history.samples()
    }

    /// The retained histories of one pid, if it is live.
    pub fn get_process_history(&self, pid: u32) -> (r: Option<&ProcSeries>)
        ensures
            match r {
                Some(e) => series_of(self.spec_entries(), pid) == Some(*e),
                None => series_of(self.spec_entries(), pid) is None,
            },
    {
        match find_series(&self.per_process, pid) {
            Some(i) => Some(&self.per_process[i]),
            None => None,
        }
    }
}

} // verus!
