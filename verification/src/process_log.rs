//! The lifecycle log: a bounded audit trail of process exits. Each refresh
//! tick the registry's previous pid set is compared with the current one;
//! every vanished pid yields one immutable exit record with a computed
//! uptime. The log is a FIFO of fixed capacity — the oldest entry leaves
//! when a new one arrives at capacity.
use vstd::prelude::*;
use vstd::seq_lib::group_filter_ensures;
use vstd::seq_lib::group_to_multiset_ensures;
use vstd::arithmetic::div_mod::{lemma_div_is_ordered, lemma_div_multiples_vanish};
use crate::datetime::{spec_uptime, uptime_seconds};
use crate::record::{ProcessInfo, has_pid, unique_pids, contains_pid, clone_opt_string};
use crate::series::spec_push_cap;
use crate::sort::{
    spec_insert, sorted_le, total_leq, trans_leq, lemma_insert_membership, lemma_insert_sorted,
    lemma_insert_at, lemma_insert_contains, lemma_insert_decomposition,
};
use crate::text::{spec_lower, spec_dec, contains_seq, to_lower, str_contains, u64_to_string};

verus! {

/// One exited process: immutable once appended.
pub struct ProcessExitLogEntry {
    pub pid: u32,
    pub name: String,
    pub user: Option<String>,
    pub start_time: String,
    /// Wall clock at detection, in civil seconds.
    pub exit_time_secs: u64,
    /// Exit instant minus parsed start instant, clamped at zero.
    pub uptime_secs: u64,
}

impl Clone for ProcessExitLogEntry {
    fn clone(&self) -> (r: Self)
        ensures
            r == *self,
    {
        ProcessExitLogEntry {
            pid: self.pid,
            name: self.name.clone(),
            user: clone_opt_string(&self.user),
            start_time: self.start_time.clone(),
            exit_time_secs: self.exit_time_secs,
            uptime_secs: self.uptime_secs,
        }
    }
}

/// The exit record synthesized for one vanished process.
pub open spec fn spec_exit_entry(p: ProcessInfo, exit_secs: u64) -> ProcessExitLogEntry {
    ProcessExitLogEntry {
        pid: p.pid,
        name: p.name,
        user: p.user,
        start_time: p.start_time_str,
        exit_time_secs: exit_secs,
        uptime_secs: spec_uptime(p.start_time_str@, exit_secs),
    }
}

/// The records of the previous snapshot whose pid is absent from the
/// current one: the set difference `P_prev - P_cur`, in previous order.
pub open spec fn spec_exited(prev: Seq<ProcessInfo>, cur: Seq<ProcessInfo>) -> Seq<ProcessInfo> {
    prev.filter(|p: ProcessInfo| !has_pid(cur, p.pid))
}

/// Bounded append of many entries, oldest evicted first at capacity.
pub open spec fn spec_append_capped(
    log: Seq<ProcessExitLogEntry>,
    cap: nat,
    xs: Seq<ProcessExitLogEntry>,
) -> Seq<ProcessExitLogEntry>
    decreases xs.len(),
{
    if xs.len() == 0 {
        log
    } else {
        spec_append_capped(spec_push_cap(log, cap, xs[0]), cap, xs.skip(1))
    }
}

/// A bounded FIFO of exit records.
pub struct ExitLog {
    entries: Vec<ProcessExitLogEntry>,
    cap: usize,
}

impl View for ExitLog {
    type V = Seq<ProcessExitLogEntry>;

    closed spec fn view(&self) -> Seq<ProcessExitLogEntry> {
        self.entries@
    }
}

impl ExitLog {
    /// The configured maximum number of retained entries.
    pub closed spec fn capacity(self) -> nat {
        self.cap as nat
    }

    /// Retained length never exceeds the capacity.
    pub open spec fn bounded(self) -> bool {
        self@.len() <= self.capacity()
    }

    pub fn new(cap: usize) -> (r: Self)
        ensures
            r@ == Seq::<ProcessExitLogEntry>::empty(),
            r.capacity() == cap,
            r.bounded(),
    {
        ExitLog { entries: Vec::new(), cap }
    }

    pub fn len(&self) -> (n: usize)
        ensures
            n == self@.len(),
    {
        self.entries.len()
    }

    /// The retained entries, oldest first.
    pub fn entries(&self) -> (r: &Vec<ProcessExitLogEntry>)
        ensures
            r@ == self@,
    {
        &self.entries
    }

    /// Appends one entry, evicting the oldest first when at capacity.
    fn push_capped(&mut self, e: ProcessExitLogEntry)
        ensures
            final(self)@ == spec_push_cap(old(self)@, old(self).capacity(), e),
            final(self).capacity() == old(self).capacity(),
            old(self).bounded() ==> final(self).bounded(),
    {
        self.entries.push(e);
        if self.entries.len() > self.cap {
            self.entries.remove(0);
            proof {
                assert(self.entries@ =~= old(self)@.push(e).drop_first());
            }
        }
    }

    /// Compares the previous snapshot with the current pid set and appends
    /// one exit record for every vanished pid, in previous-snapshot order.
    /// An exit is always recorded, with uptime zero when the start-time
    /// string cannot be parsed.
    pub fn detect_exits(
        &mut self,
        prev: &Vec<ProcessInfo>,
        cur: &Vec<ProcessInfo>,
        exit_time_secs: u64,
    )
        ensures
            final(self)@ == spec_append_capped(
                old(self)@,
                old(self).capacity(),
                spec_exited(prev@, cur@).map_values(|p: ProcessInfo| spec_exit_entry(p, exit_time_secs)),
            ),
            final(self).capacity() == old(self).capacity(),
            old(self).bounded() ==> final(self).bounded(),
    {
        broadcast use group_filter_ensures;
        broadcast use Seq::lemma_filter_push;

        let ghost pred = |p: ProcessInfo| !has_pid(cur@, p.pid);
        let ghost to_entry = |p: ProcessInfo| spec_exit_entry(p, exit_time_secs);
        let mut i: usize = 0;
        proof {
            assert(prev@.subrange(0, 0) =~= Seq::<ProcessInfo>::empty());
            assert(prev@.subrange(0, 0).filter(pred).map_values(to_entry) =~= Seq::<
                ProcessExitLogEntry,
            >::empty());
            lemma_append_capped_empty(old(self)@, old(self).capacity());
        }
        while i < prev.len()
            invariant
                i <= prev@.len(),
                self.capacity() == old(self).capacity(),
                old(self).bounded() ==> self.bounded(),
                pred == (|p: ProcessInfo| !has_pid(cur@, p.pid)),
                to_entry == (|p: ProcessInfo| spec_exit_entry(p, exit_time_secs)),
                self@ == spec_append_capped(
                    old(self)@,
                    old(self).capacity(),
                    prev@.subrange(0, i as int).filter(pred).map_values(to_entry),
                ),
            decreases prev@.len() - i,
        {
            let p = &prev[i];
            let ghost prefix = prev@.subrange(0, i as int);
            if !contains_pid(cur, p.pid) {
                let uptime = uptime_seconds(p.start_time_str.as_str(), exit_time_secs);
                let entry = ProcessExitLogEntry {
                    pid: p.pid,
                    name: p.name.clone(),
                    user: clone_opt_string(&p.user),
                    start_time: p.start_time_str.clone(),
                    exit_time_secs: exit_time_secs,
                    uptime_secs: uptime,
                };
                assert(entry == spec_exit_entry(prev@[i as int], exit_time_secs));
                self.push_capped(entry);
                proof {
                    assert(prev@.subrange(0, i as int + 1) =~= prefix.push(prev@[i as int]));
                    prefix.lemma_filter_push(prev@[i as int], pred);
                    assert(prefix.push(prev@[i as int]).filter(pred) =~= prefix.filter(pred).push(
                        prev@[i as int],
                    ));
                    assert(prefix.push(prev@[i as int]).filter(pred).map_values(to_entry)
                        =~= prefix.filter(pred).map_values(to_entry).push(
                        spec_exit_entry(prev@[i as int], exit_time_secs),
                    ));
                    lemma_append_capped_snoc(
                        old(self)@,
                        old(self).capacity(),
                        prefix.filter(pred).map_values(to_entry),
                        spec_exit_entry(prev@[i as int], exit_time_secs),
                    );
                }
            } else {
                proof {
                    assert(prev@.subrange(0, i as int + 1) =~= prefix.push(prev@[i as int]));
                    prefix.lemma_filter_push(prev@[i as int], pred);
                    assert(prefix.push(prev@[i as int]).filter(pred) =~= prefix.filter(pred));
                }
            }
            i = i + 1;
        }
        proof {
            assert(prev@.subrange(0, prev@.len() as int) =~= prev@);
        }
    }
}

/// Whether an exit record matches a search query: case-insensitive
/// substring match on the name or the user, or substring match on the
/// decimal pid.
pub open spec fn spec_log_match(e: ProcessExitLogEntry, q: Seq<char>) -> bool {
    ||| contains_seq(spec_lower(e.name@), spec_lower(q))
    ||| (e.user is Some && contains_seq(spec_lower(e.user->0@), spec_lower(q)))
    ||| contains_seq(spec_dec(e.pid as nat), q)
}

/// The read-side filter: an empty query keeps the whole log.
pub open spec fn spec_log_filter(
    log: Seq<ProcessExitLogEntry>,
    q: Seq<char>,
) -> Seq<ProcessExitLogEntry> {
    if q.len() == 0 {
        log
    } else {
        log.filter(|e: ProcessExitLogEntry| spec_log_match(e, q))
    }
}

/// Grouping dimensions of the exit log's read side.
#[derive(Clone, Copy, Debug, PartialEq, Eq, Structural)]
pub enum LogGroupMode {
    Name,
    User,
}

/// The grouping key of one exit record; an unresolved user groups under
/// `Unknown`.
pub open spec fn spec_group_key(e: ProcessExitLogEntry, mode: LogGroupMode) -> Seq<char> {
    match mode {
        LogGroupMode::Name => e.name@,
        LogGroupMode::User => match e.user {
            Some(u) => u@,
            None => "Unknown"@,
        },
    }
}

/// The entries of the log that group under key `k`, in log order.
pub open spec fn group_of(
    log: Seq<ProcessExitLogEntry>,
    mode: LogGroupMode,
    k: Seq<char>,
) -> Seq<ProcessExitLogEntry> {
    log.filter(|e: ProcessExitLogEntry| spec_group_key(e, mode) == k)
}

/// Sum of the uptimes of a group.
pub open spec fn spec_sum_uptime(g: Seq<ProcessExitLogEntry>) -> int
    decreases g.len(),
{
    if g.len() == 0 {
        0
    } else {
        spec_sum_uptime(g.drop_last()) + g.last().uptime_secs
    }
}

/// Smallest uptime of a group; zero for an empty group.
pub open spec fn spec_min_uptime(g: Seq<ProcessExitLogEntry>) -> u64
    decreases g.len(),
{
    if g.len() == 0 {
        0u64
    } else if g.len() == 1 {
        g[0].uptime_secs
    } else {
        let m = spec_min_uptime(g.drop_last());
        if g.last().uptime_secs < m {
            g.last().uptime_secs
        } else {
            m
        }
    }
}

/// Largest uptime of a group; zero for an empty group.
pub open spec fn spec_max_uptime(g: Seq<ProcessExitLogEntry>) -> u64
    decreases g.len(),
{
    if g.len() == 0 {
        0u64
    } else {
        let m = spec_max_uptime(g.drop_last());
        if g.last().uptime_secs > m {
            g.last().uptime_secs
        } else {
            m
        }
    }
}

/// Most recent exit instant of a group; zero for an empty group.
pub open spec fn spec_last_exit(g: Seq<ProcessExitLogEntry>) -> u64
    decreases g.len(),
{
    if g.len() == 0 {
        0u64
    } else {
        let m = spec_last_exit(g.drop_last());
        if g.last().exit_time_secs > m {
            g.last().exit_time_secs
        } else {
            m
        }
    }
}

/// One row of the grouped view: the key and the derived statistics of its
/// group, recomputed per read and never cached.
pub struct GroupSummary {
    pub key: String,
    pub count: usize,
    pub min_uptime: u64,
    pub max_uptime: u64,
    pub avg_uptime: u64,
    pub last_exit_secs: u64,
}

/// The summary carries exactly the statistics of its key's group.
pub open spec fn summary_ok(
    log: Seq<ProcessExitLogEntry>,
    mode: LogGroupMode,
    s: GroupSummary,
) -> bool {
    let g = group_of(log, mode, s.key@);
    &&& g.len() > 0
    &&& s.count == g.len()
    &&& s.min_uptime == spec_min_uptime(g)
    &&& s.max_uptime == spec_max_uptime(g)
    &&& s.avg_uptime as int == spec_sum_uptime(g) / (g.len() as int)
    &&& s.last_exit_secs == spec_last_exit(g)
}

/// The order of the grouped view: larger groups first.
pub open spec fn summary_leq() -> spec_fn(GroupSummary, GroupSummary) -> bool {
    |a: GroupSummary, b: GroupSummary| a.count >= b.count
}

/// Exec test of one record against a search query, with the query already
/// lower-cased by the caller.
fn log_match(e: &ProcessExitLogEntry, query: &str, lower_query: &str) -> (r: bool)
    requires
        lower_query@ == spec_lower(query@),
    ensures
        r == spec_log_match(*e, query@),
{
    let lname = to_lower(e.name.as_str());
    if str_contains(lname.as_str(), lower_query) {
        return true;
    }
    let user_hit = match &e.user {
        Some(u) => {
            let lu = to_lower(u.as_str());
            str_contains(lu.as_str(), lower_query)
        },
        None => false,
    };
    if user_hit {
        return true;
    }
    let pid_str = u64_to_string(e.pid as u64);
    str_contains(pid_str.as_str(), query)
}

/// Exec rendering of one record's grouping key.
fn group_key_string(e: &ProcessExitLogEntry, mode: LogGroupMode) -> (r: String)
    ensures
        r@ == spec_group_key(*e, mode),
{
    match mode {
        LogGroupMode::Name => e.name.clone(),
        LogGroupMode::User => match &e.user {
            Some(u) => u.clone(),
            None => "Unknown".to_owned(),
        },
    }
}

/// Whether a key already occurs in the collected key list.
fn contains_key_str(keys: &Vec<String>, key: &String) -> (r: bool)
    ensures
        r == exists|i: int| 0 <= i < keys@.len() && keys@[i]@ == key@,
{
    let mut i: usize = 0;
    while i < keys.len()
        invariant
            i <= keys@.len(),
            forall|k: int| 0 <= k < i ==> keys@[k]@ != key@,
        decreases keys@.len() - i,
    {
        if keys[i] == *key {
            assert(keys@[i as int]@ == key@);
            return true;
        }
        i = i + 1;
    }
    false
}

impl ExitLog {
    /// The read-side filter over the retained log: substring match on
    /// name or user (case-insensitive) or on the decimal pid; an empty
    /// query keeps everything. The underlying log is never mutated.
    pub fn filtered(&self, query: &str) -> (r: Vec<ProcessExitLogEntry>)
        ensures
            r@ == spec_log_filter(self@, query@),
    {
        let mut out: Vec<ProcessExitLogEntry> = Vec::new();
        let qlen = query.unicode_len();
        if qlen == 0 {
            let mut i: usize = 0;
            while i < self.entries.len()
                invariant
                    i <= self@.len(),
                    out@ == self@.subrange(0, i as int),
                decreases self@.len() - i,
            {
                out.push(self.entries[i].clone());
                proof {
                    assert(out@ =~= self@.subrange(0, i as int + 1));
                }
                i = i + 1;
            }
            proof {
                assert(self@.subrange(0, self@.len() as int) =~= self@);
            }
            return out;
        }
        let lower_query = to_lower(query);
        let ghost pred = |e: ProcessExitLogEntry| spec_log_match(e, query@);
        let mut i: usize = 0;
        proof {
            assert(self@.subrange(0, 0).filter(pred) =~= Seq::<ProcessExitLogEntry>::empty());
        }
        while i < self.entries.len()
            invariant
                i <= self@.len(),
                qlen == query@.len(),
                qlen > 0,
                lower_query@ == spec_lower(query@),
                pred == (|e: ProcessExitLogEntry| spec_log_match(e, query@)),
                out@ == self@.subrange(0, i as int).filter(pred),
            decreases self@.len() - i,
        {
            let ghost prefix = self@.subrange(0, i as int);
            if log_match(&self.entries[i], query, lower_query.as_str()) {
                out.push(self.entries[i].clone());
            }
            proof {
                assert(self@.subrange(0, i as int + 1) =~= prefix.push(self@[i as int]));
                prefix.lemma_filter_push(self@[i as int], pred);
            }
            i = i + 1;
        }
        proof {
            assert(self@.subrange(0, self@.len() as int) =~= self@);
        }
        out
    }

    /// The statistics of one key's group, computed in one pass; nothing for
    /// a key no retained entry groups under.
    fn summarize(&self, mode: LogGroupMode, key: &String) -> (r: Option<GroupSummary>)
        ensures
            match r {
                Some(s) => summary_ok(self@, mode, s) && s.key@ == key@,
                None => group_of(self@, mode, key@).len() == 0,
            },
    {
        broadcast use group_filter_ensures;

        let ghost pred = |e: ProcessExitLogEntry| spec_group_key(e, mode) == key@;
        let mut cnt: usize = 0;
        let mut minu: u64 = 0;
        let mut maxu: u64 = 0;
        let mut last: u64 = 0;
        let mut sum: u128 = 0;
        let mut i: usize = 0;
        proof {
            assert(self@.subrange(0, 0).filter(pred) =~= Seq::<ProcessExitLogEntry>::empty());
        }
        while i < self.entries.len()
            invariant
                i <= self@.len(),
                pred == (|e: ProcessExitLogEntry| spec_group_key(e, mode) == key@),
                cnt == self@.subrange(0, i as int).filter(pred).len(),
                cnt <= i,
                sum == spec_sum_uptime(self@.subrange(0, i as int).filter(pred)),
                sum <= (cnt as int) * (u64::MAX as int),
                cnt > 0 ==> minu == spec_min_uptime(self@.subrange(0, i as int).filter(pred)),
                cnt > 0 ==> maxu == spec_max_uptime(self@.subrange(0, i as int).filter(pred)),
                cnt > 0 ==> last == spec_last_exit(self@.subrange(0, i as int).filter(pred)),
            decreases self@.len() - i,
        {
            let ghost prefix = self@.subrange(0, i as int);
            let e = &self.entries[i];
            let matched = match mode {
                LogGroupMode::Name => e.name == *key,
                LogGroupMode::User => match &e.user {
                    Some(u) => *u == *key,
                    None => {
                        let unk: String = "Unknown".to_owned();
                        unk == *key
                    },
                },
            };
            assert(matched == pred(self@[i as int]));
            if matched {
                if cnt == 0 {
                    minu = e.uptime_secs;
                    maxu = e.uptime_secs;
                    last = e.exit_time_secs;
                } else {
                    if e.uptime_secs < minu {
                        minu = e.uptime_secs;
                    }
                    if e.uptime_secs > maxu {
                        maxu = e.uptime_secs;
                    }
                    if e.exit_time_secs > last {
                        last = e.exit_time_secs;
                    }
                }
                cnt = cnt + 1;
                sum = sum + e.uptime_secs as u128;
            }
            proof {
                assert(self@.subrange(0, i as int + 1) =~= prefix.push(self@[i as int]));
                prefix.lemma_filter_push(self@[i as int], pred);
                if pred(self@[i as int]) {
                    let old_g = prefix.filter(pred);
                    let g = old_g.push(self@[i as int]);
                    assert(self@.subrange(0, i as int + 1).filter(pred) == g);
                    assert(g.drop_last() =~= old_g);
                    assert(g.last() == self@[i as int]);
                    assert(spec_sum_uptime(g) == spec_sum_uptime(old_g) + self@[i as int].uptime_secs);
                    if old_g.len() == 0 {
                        assert(g[0] == self@[i as int]);
                        assert(spec_min_uptime(g) == self@[i as int].uptime_secs);
                        assert(spec_max_uptime(old_g) == 0);
                        assert(spec_last_exit(old_g) == 0);
                        assert(spec_max_uptime(g) == self@[i as int].uptime_secs);
                        assert(spec_last_exit(g) == self@[i as int].exit_time_secs);
                    } else {
                        assert(spec_min_uptime(g) == if g.last().uptime_secs < spec_min_uptime(
                            old_g,
                        ) {
                            g.last().uptime_secs
                        } else {
                            spec_min_uptime(old_g)
                        });
                        assert(spec_max_uptime(g) == if g.last().uptime_secs > spec_max_uptime(
                            old_g,
                        ) {
                            g.last().uptime_secs
                        } else {
                            spec_max_uptime(old_g)
                        });
                        assert(spec_last_exit(g) == if g.last().exit_time_secs > spec_last_exit(
                            old_g,
                        ) {
                            g.last().exit_time_secs
                        } else {
                            spec_last_exit(old_g)
                        });
                    }
                } else {
                    assert(self@.subrange(0, i as int + 1).filter(pred) == prefix.filter(pred));
                }
            }
            i = i + 1;
        }
        proof {
            assert(self@.subrange(0, self@.len() as int) =~= self@);
        }
        if cnt == 0 {
            return None;
        }
        let avg128 = sum / (cnt as u128);
        proof {
            lemma_div_is_ordered(sum as int, (cnt as int) * (u64::MAX as int), cnt as int);
            lemma_div_multiples_vanish(u64::MAX as int, cnt as int);
        }
        let avg = avg128 as u64;
        Some(GroupSummary {
            key: key.clone(),
            count: cnt,
            min_uptime: minu,
            max_uptime: maxu,
            avg_uptime: avg,
            last_exit_secs: last,
        })
    }

    /// The grouped read-side view: one summary per distinct key of the
    /// retained log, larger groups first, each summary carrying the exact
    /// The distinct grouping keys of the retained log, in first-appearance
    /// order.
    fn collect_keys(&self, mode: LogGroupMode) -> (keys: Vec<String>)
        ensures
            forall|a: int, b: int| 0 <= a < b < keys@.len() ==> keys@[a]@ != keys@[b]@,
            keys_cover(self@, mode, keys@, self@.len() as int),
    {
        let mut keys: Vec<String> = Vec::new();
        let mut i: usize = 0;
        while i < self.entries.len()
            invariant
                i <= self@.len(),
                forall|a: int, b: int| 0 <= a < b < keys@.len() ==> keys@[a]@ != keys@[b]@,
                keys_cover(self@, mode, keys@, i as int),
            decreases self@.len() - i,
        {
            let ghost old_keys = keys@;
            let k = group_key_string(&self.entries[i], mode);
            if !contains_key_str(&keys, &k) {
                keys.push(k);
                proof {
                    assert forall|t: int| 0 <= t < i + 1 implies #[trigger] key_covered(
                        self@,
                        mode,
                        keys@,
                        t,
                    ) by {
                        if t < i {
                            assert(key_covered(self@, mode, old_keys, t));
                            let j = choose|j: int|
                                0 <= j < old_keys.len() && old_keys[j]@ == spec_group_key(
                                    self@[t],
                                    mode,
                                );
                            assert(keys@[j]@ == spec_group_key(self@[t], mode));
                        } else {
                            assert(keys@[old_keys.len() as int]@ == spec_group_key(
                                self@[t],
                                mode,
                            ));
                        }
                    }
                }
            } else {
                proof {
                    assert forall|t: int| 0 <= t < i + 1 implies #[trigger] key_covered(
                        self@,
                        mode,
                        keys@,
                        t,
                    ) by {
                        if t < i {
                            assert(key_covered(self@, mode, keys@, t));
                        } else {
                            let j = choose|j: int| 0 <= j < keys@.len() && keys@[j]@ == k@;
                            assert(keys@[j]@ == spec_group_key(self@[t], mode));
                        }
                    }
                }
            }
            i = i + 1;
        }
        proof {
            assert(i == self@.len());
        }
        keys
    }

    /// count, uptime minimum, maximum and mean, and the most recent exit of
    /// its group. Computed on demand; the log itself is never mutated.
    pub fn grouped(&self, mode: LogGroupMode) -> (r: Vec<GroupSummary>)
        ensures
            forall|j: int| 0 <= j < r@.len() ==> summary_ok(self@, mode, #[trigger] r@[j]),
            forall|j: int, k: int| 0 <= j < k < r@.len() ==> r@[j].key@ != r@[k].key@,
            groups_complete(self@, mode, r@),
            forall|j: int, k: int| 0 <= j < k < r@.len() ==> r@[j].count >= r@[k].count,
    {
        let keys = self.collect_keys(mode);
        let mut out: Vec<GroupSummary> = Vec::new();
        let mut j: usize = 0;
        while j < keys.len()
            invariant
                j <= keys@.len(),
                forall|a: int, b: int| 0 <= a < b < keys@.len() ==> keys@[a]@ != keys@[b]@,
                grouped_inv(self@, mode, keys@, j as int, out@),
            decreases keys@.len() - j,
        {
            match self.summarize(mode, &keys[j]) {
                Some(s) => {
                    let ghost old_out = out@;
                    insert_summary(&mut out, s);
                    proof {
                        lemma_grouped_step(self@, mode, keys@, j as int, old_out, out@, s);
                    }
                },
                None => {
                    proof {
                        assert(grouped_inv(self@, mode, keys@, j as int + 1, out@));
                    }
                },
            }
            j = j + 1;
        }
        proof {
            assert(j == keys@.len());
            lemma_groups_complete(self@, mode, keys@, out@);
            assert forall|p: int, q: int| 0 <= p < q < out@.len() implies out@[p].count
                >= out@[q].count by {
                assert(summary_leq()(out@[p], out@[q]));
            }
        }
        out
    }
}

/// The entry at position `t` groups under one of the collected keys.
pub open spec fn key_covered(
    log: Seq<ProcessExitLogEntry>,
    mode: LogGroupMode,
    keys: Seq<String>,
    t: int,
) -> bool {
    exists|j: int| 0 <= j < keys.len() && keys[j]@ == spec_group_key(log[t], mode)
}

/// The collected keys cover the first `n` entries of the log: each of those
/// entries groups under one of them.
pub open spec fn keys_cover(
    log: Seq<ProcessExitLogEntry>,
    mode: LogGroupMode,
    keys: Seq<String>,
    n: int,
) -> bool {
    forall|t: int| 0 <= t < n ==> #[trigger] key_covered(log, mode, keys, t)
}

/// The entry at position `t` has a summary for its group in the view.
pub open spec fn entry_covered(
    log: Seq<ProcessExitLogEntry>,
    mode: LogGroupMode,
    out: Seq<GroupSummary>,
    t: int,
) -> bool {
    exists|j: int| 0 <= j < out.len() && out[j].key@ == spec_group_key(log[t], mode)
}

/// Every retained entry's group appears in the grouped view.
pub open spec fn groups_complete(
    log: Seq<ProcessExitLogEntry>,
    mode: LogGroupMode,
    out: Seq<GroupSummary>,
) -> bool {
    forall|t: int| 0 <= t < log.len() ==> #[trigger] entry_covered(log, mode, out, t)
}

/// When the collected keys cover the whole log and every key was
/// summarized, the grouped view is complete.
proof fn lemma_groups_complete(
    log: Seq<ProcessExitLogEntry>,
    mode: LogGroupMode,
    keys: Seq<String>,
    out: Seq<GroupSummary>,
)
    requires
        keys_cover(log, mode, keys, log.len() as int),
        grouped_inv(log, mode, keys, keys.len() as int, out),
    ensures
        groups_complete(log, mode, out),
{
    assert forall|t: int| 0 <= t < log.len() implies #[trigger] entry_covered(
        log,
        mode,
        out,
        t,
    ) by {
        assert(key_covered(log, mode, keys, t));
        let jj = choose|jj: int|
            0 <= jj < keys.len() && keys[jj]@ == spec_group_key(log[t], mode);
        assert(group_of(log, mode, keys[jj]@).contains(log[t])) by {
            broadcast use vstd::seq_lib::group_filter_ensures;

        }
        assert(group_of(log, mode, keys[jj]@).len() > 0);
        let p = choose|p: int| 0 <= p < out.len() && out[p].key@ == keys[jj]@;
        assert(0 <= p < out.len() && out[p].key@ == spec_group_key(log[t], mode));
    }
}

/// What holds of the grouped view after the first `j` keys were summarized:
/// every summary is exact and owed to one of those keys, every one of those
/// keys has its summary, keys are pairwise distinct, larger groups first.
pub open spec fn grouped_inv(
    log: Seq<ProcessExitLogEntry>,
    mode: LogGroupMode,
    keys: Seq<String>,
    j: int,
    out: Seq<GroupSummary>,
) -> bool {
    &&& forall|p: int| 0 <= p < out.len() ==> summary_ok(log, mode, #[trigger] out[p])
    &&& forall|p: int, jj: int|
        0 <= p < out.len() && j <= jj < keys.len() ==> (#[trigger] out[p].key@) != (
        #[trigger] keys[jj]@)
    &&& forall|jj: int|
        0 <= jj < j ==> (group_of(log, mode, keys[jj]@).len() > 0 ==> exists|p: int|
            0 <= p < out.len() && out[p].key@ == #[trigger] keys[jj]@)
    &&& forall|p: int, q: int| 0 <= p < q < out.len() ==> out[p].key@ != out[q].key@
    &&& sorted_le(summary_leq(), out)
}

/// One step of the grouped view's construction: inserting the summary of
/// the next key preserves the view's invariant.
proof fn lemma_grouped_step(
    log: Seq<ProcessExitLogEntry>,
    mode: LogGroupMode,
    keys: Seq<String>,
    j: int,
    old_out: Seq<GroupSummary>,
    new_out: Seq<GroupSummary>,
    s: GroupSummary,
)
    requires
        0 <= j < keys.len(),
        forall|a: int, b: int| 0 <= a < b < keys.len() ==> keys[a]@ != keys[b]@,
        grouped_inv(log, mode, keys, j, old_out),
        summary_ok(log, mode, s),
        s.key@ == keys[j]@,
        new_out == spec_insert(summary_leq(), old_out, s),
    ensures
        grouped_inv(log, mode, keys, j + 1, new_out),
{
    let leq = summary_leq();
    assert(total_leq(leq)) by {
        assert forall|a: GroupSummary, b: GroupSummary| #[trigger]
            leq(a, b) || #[trigger] leq(b, a) by {}
    }
    assert(trans_leq(leq)) by {
        assert forall|a: GroupSummary, b: GroupSummary, c: GroupSummary|
            #[trigger] leq(a, b) && #[trigger] leq(b, c) implies leq(a, c) by {}
    }
    lemma_insert_membership(leq, old_out, s);
    lemma_insert_sorted(leq, old_out, s);
    lemma_insert_contains(leq, old_out, s);
    assert forall|p: int| 0 <= p < new_out.len() implies summary_ok(
        log,
        mode,
        #[trigger] new_out[p],
    ) by {
        if new_out[p] != s {
            assert(old_out.contains(new_out[p]));
            let q = choose|q: int| 0 <= q < old_out.len() && old_out[q] == new_out[p];
        }
    }
    assert forall|p: int, jj: int|
        0 <= p < new_out.len() && j + 1 <= jj < keys.len() implies (#[trigger] new_out[p].key@)
        != (#[trigger] keys[jj]@) by {
        if new_out[p] == s {
            assert(keys[j]@ != keys[jj]@);
        } else {
            assert(old_out.contains(new_out[p]));
            let q = choose|q: int| 0 <= q < old_out.len() && old_out[q] == new_out[p];
            assert(old_out[q].key@ != keys[jj]@);
        }
    }
    assert forall|jj: int|
        0 <= jj < j + 1 && group_of(log, mode, keys[jj]@).len() > 0 implies exists|p: int|
        0 <= p < new_out.len() && new_out[p].key@ == #[trigger] keys[jj]@ by {
        if jj == j {
            assert(new_out.contains(s));
            let p = choose|p: int| 0 <= p < new_out.len() && new_out[p] == s;
            assert(new_out[p].key@ == keys[jj]@);
        } else {
            let p0 = choose|p: int| 0 <= p < old_out.len() && old_out[p].key@ == keys[jj]@;
            assert(old_out.contains(old_out[p0]));
            assert(new_out.contains(old_out[p0]));
            let p = choose|p: int| 0 <= p < new_out.len() && new_out[p] == old_out[p0];
            assert(new_out[p].key@ == keys[jj]@);
        }
    }
    lemma_insert_decomposition(leq, old_out, s);
    let k = choose|k: int|
        0 <= k <= old_out.len() && new_out == old_out.subrange(0, k) + seq![s]
            + old_out.subrange(k, old_out.len() as int);
    assert forall|p: int, q: int| 0 <= p < q < new_out.len() implies new_out[p].key@
        != new_out[q].key@ by {
        if p < k {
            assert(new_out[p] == old_out[p]);
        } else if p > k {
            assert(new_out[p] == old_out[p - 1]);
        }
        if q < k {
            assert(new_out[q] == old_out[q]);
        } else if q > k {
            assert(new_out[q] == old_out[q - 1]);
        }
        if p == k {
            assert(new_out[p] == s);
            assert(new_out[q] == old_out[q - 1]);
            assert(new_out[q].key@ != keys[j]@);
        } else if q == k {
            assert(new_out[q] == s);
            assert(new_out[p] == old_out[p]);
            assert(new_out[p].key@ != keys[j]@);
        }
    }
}

/// Two positions of a sequence holding the same value give that value a
/// multiset count of at least two.
proof fn lemma_count_two_distinct(s: Seq<GroupSummary>, p: int, q: int)
    requires
        0 <= p < q < s.len(),
        s[p] == s[q],
    ensures
        s.to_multiset().count(s[p]) >= 2,
{
    broadcast use group_to_multiset_ensures;

    let rest = s.remove(p);
    assert(rest.to_multiset() =~= s.to_multiset().remove(s[p]));
    assert(rest[q - 1] == s[q]);
    assert(rest.contains(s[q]));
    assert(rest.to_multiset().count(s[q]) >= 1);
    assert(s.contains(s[p]));
    assert(s.to_multiset().count(s[p]) >= 1);
    assert(s.to_multiset().remove(s[p]).count(s[p]) == s.to_multiset().count(s[p]) - 1);
}

/// In a sequence with pairwise distinct keys, two positions with equal keys
/// coincide — stated in the contrapositive the grouped view's proof needs.
proof fn lemma_distinct_keys_same(s: Seq<GroupSummary>, p: int, q: int)
    requires
        0 <= p < s.len(),
        0 <= q < s.len(),
        forall|a: int, b: int| 0 <= a < b < s.len() ==> s[a].key@ != s[b].key@,
        s[p].key@ == s[q].key@,
    ensures
        p == q,
{
}

/// Inserts one summary at its stable position in the count order.
fn insert_summary(out: &mut Vec<GroupSummary>, x: GroupSummary)
    ensures
        final(out)@ == spec_insert(summary_leq(), old(out)@, x),
{
    let ghost leq = summary_leq();
    let mut j: usize = out.len();
    while j > 0 && !(out[j - 1].count >= x.count)
        invariant
            j <= out@.len(),
            out == old(out),
            leq == summary_leq(),
            forall|k: int| j <= k < out@.len() ==> !leq(out@[k], x),
        decreases j,
    {
        j = j - 1;
    }
    out.insert(j, x);
    proof {
        lemma_insert_at(leq, old(out)@, x, j as int);
        assert(out@ =~= old(out)@.subrange(0, j as int) + seq![x] + old(out)@.subrange(
            j as int,
            old(out)@.len() as int,
        ));
    }
}

/// Appending nothing leaves the log unchanged.
proof fn lemma_append_capped_empty(log: Seq<ProcessExitLogEntry>, cap: nat)
    ensures
        spec_append_capped(log, cap, Seq::<ProcessExitLogEntry>::empty()) == log,
{
}

/// Appending one more entry after a batch equals appending the longer batch.
proof fn lemma_append_capped_snoc(
    log: Seq<ProcessExitLogEntry>,
    cap: nat,
    xs: Seq<ProcessExitLogEntry>,
    x: ProcessExitLogEntry,
)
    ensures
        spec_append_capped(log, cap, xs.push(x)) == spec_push_cap(
            spec_append_capped(log, cap, xs),
            cap,
            x,
        ),
    decreases xs.len(),
{
    if xs.len() == 0 {
        assert(xs.push(x)[0] == x);
        assert(xs.push(x).skip(1) =~= Seq::<ProcessExitLogEntry>::empty());
        assert(spec_append_capped(log, cap, xs.push(x)) == spec_append_capped(
            spec_push_cap(log, cap, x),
            cap,
            Seq::<ProcessExitLogEntry>::empty(),
        ));
        assert(spec_append_capped(
            spec_push_cap(log, cap, x),
            cap,
            Seq::<ProcessExitLogEntry>::empty(),
        ) == spec_push_cap(log, cap, x));
        assert(spec_append_capped(log, cap, xs) == log);
    } else {
        assert(xs.push(x)[0] == xs[0]);
        assert(xs.push(x).skip(1) =~= xs.skip(1).push(x));
        lemma_append_capped_snoc(spec_push_cap(log, cap, xs[0]), cap, xs.skip(1), x);
        assert(spec_append_capped(log, cap, xs.push(x)) == spec_append_capped(
            spec_push_cap(log, cap, xs[0]),
            cap,
            xs.skip(1).push(x),
        ));
        assert(spec_append_capped(log, cap, xs) == spec_append_capped(
            spec_push_cap(log, cap, xs[0]),
            cap,
            xs.skip(1),
        ));
    }
}

/// The pids of a record sequence, as a set.
pub open spec fn pid_set(s: Seq<ProcessInfo>) -> Set<u32>
    decreases s.len(),
{
    if s.len() == 0 {
        Set::<u32>::empty()
    } else {
        pid_set(s.drop_last()).insert(s.last().pid)
    }
}

pub proof fn lemma_pid_set_finite(s: Seq<ProcessInfo>)
    ensures
        pid_set(s).finite(),
    decreases s.len(),
{
    if s.len() > 0 {
        lemma_pid_set_finite(s.drop_last());
    }
}

pub proof fn lemma_pid_set_contains(s: Seq<ProcessInfo>, pid: u32)
    ensures
        pid_set(s).contains(pid) == has_pid(s, pid),
    decreases s.len(),
{
    if s.len() > 0 {
        lemma_pid_set_contains(s.drop_last(), pid);
        if pid_set(s).contains(pid) {
            if s.last().pid == pid {
                assert(has_pid(s, pid));
            } else {
                let k = choose|k: int| 0 <= k < s.drop_last().len() && s.drop_last()[k].pid == pid;
                assert(s[k].pid == pid);
            }
        }
        if has_pid(s, pid) {
            let k = choose|k: int| 0 <= k < s.len() && s[k].pid == pid;
            if k < s.len() - 1 {
                assert(s.drop_last()[k].pid == pid);
            }
        }
    }
}

/// Law: when the previous snapshot has unique pids, the number of exit
/// records synthesized by a diff equals the cardinality of the pid-set
/// difference between the previous and the current snapshot.
pub proof fn lemma_exit_count(prev: Seq<ProcessInfo>, cur: Seq<ProcessInfo>)
    requires
        unique_pids(prev),
    ensures
        spec_exited(prev, cur).len() == pid_set(prev).difference(pid_set(cur)).len(),
    decreases prev.len(),
{
    broadcast use group_filter_ensures;
    broadcast use Seq::lemma_filter_push;
    broadcast use vstd::set::axiom_set_insert_len;
    broadcast use vstd::set::axiom_set_empty_len;

    let pred = |p: ProcessInfo| !has_pid(cur, p.pid);
    if prev.len() == 0 {
        assert(prev.filter(pred) =~= prev);
        assert(pid_set(prev).difference(pid_set(cur)) =~= Set::<u32>::empty());
    } else {
        let front = prev.drop_last();
        let x = prev.last();
        assert(front.push(x) =~= prev);
        assert(unique_pids(front));
        lemma_exit_count(front, cur);
        lemma_pid_set_finite(front);
        lemma_pid_set_finite(cur);
        lemma_pid_set_contains(cur, x.pid);
        lemma_pid_set_contains(front, x.pid);
        assert(!has_pid(front, x.pid)) by {
            if has_pid(front, x.pid) {
                let k = choose|k: int| 0 <= k < front.len() && front[k].pid == x.pid;
                assert(prev[k].pid == prev[prev.len() - 1].pid);
            }
        }
        let fdiff = pid_set(front).difference(pid_set(cur));
        assert(fdiff.finite()) by {
            vstd::set::axiom_set_difference_finite(pid_set(front), pid_set(cur));
        }
        if has_pid(cur, x.pid) {
            assert(prev.filter(pred) == front.filter(pred));
            assert(pid_set(prev).difference(pid_set(cur)) =~= fdiff);
        } else {
            assert(prev.filter(pred) == front.filter(pred).push(x));
            assert(pid_set(prev).difference(pid_set(cur)) =~= fdiff.insert(x.pid));
            assert(!fdiff.contains(x.pid));
        }
    }
}

} // verus!
