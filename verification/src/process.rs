//! The process registry: owns the current snapshot of the OS process table,
//! applies the active inclusion filter (structural or rule-based, the rule
//! taking precedence) and the active sort order, and exposes the resulting
//! visible list together with the control operations (signals, priority).
use vstd::prelude::*;
use vstd::seq_lib::group_filter_ensures;
use crate::ProcError;
use crate::classify_errno;
use crate::control::{ProcessControl, SignalKind, signal_number, priority_precheck};
use crate::record::ProcessInfo;
use crate::rules::RuleEngine;
use crate::sort::{SortKey, spec_sort_records, sort_records};
use crate::text::{spec_lower, spec_dec, contains_seq, to_lower, str_contains, u64_to_string};

verus! {

/// The structural filter dimensions.
#[derive(Clone, Copy, Debug, PartialEq, Eq, Structural)]
pub enum FilterMode {
    User,
    Name,
    Pid,
    Ppid,
}

/// Whether one record passes the structural filter: name and user match by
/// case-insensitive substring containment; pid and parent pid match by
/// substring containment on their decimal rendering — deliberately not
/// numeric equality, so `2` finds pid 12 and pid 25. A record without a
/// user or parent never matches those modes.
pub open spec fn struct_matches(mode: FilterMode, value: Seq<char>, p: ProcessInfo) -> bool {
    match mode {
        FilterMode::User => p.user is Some && contains_seq(
            spec_lower(p.user->0@),
            spec_lower(value),
        ),
        FilterMode::Name => contains_seq(spec_lower(p.name@), spec_lower(value)),
        FilterMode::Pid => contains_seq(spec_dec(p.pid as nat), value),
        FilterMode::Ppid => p.parent_pid is Some && contains_seq(
            spec_dec(p.parent_pid->0 as nat),
            value,
        ),
    }
}

/// The structural filter pass: with a mode and a value set, only matching
/// records stay; otherwise everything does.
pub open spec fn spec_struct_filter(
    mode: Option<FilterMode>,
    value: Option<Seq<char>>,
    s: Seq<ProcessInfo>,
) -> Seq<ProcessInfo> {
    if mode is Some && value is Some {
        s.filter(|p: ProcessInfo| struct_matches(mode->0, value->0, p))
    } else {
        s
    }
}

/// The sort pass: the chosen key's order, or the incoming order when no
/// sort is set.
pub open spec fn spec_apply_sort(
    mode: Option<SortKey>,
    asc: bool,
    s: Seq<ProcessInfo>,
) -> Seq<ProcessInfo> {
    match mode {
        Some(key) => spec_sort_records(key, asc, s),
        None => s,
    }
}

/// `a` is a subsequence of `b`: `a` keeps some of `b`'s records in order.
pub open spec fn is_subseq_of(a: Seq<ProcessInfo>, b: Seq<ProcessInfo>) -> bool
    decreases b.len(),
{
    if a.len() == 0 {
        true
    } else if b.len() == 0 {
        false
    } else if a[0] == b[0] {
        is_subseq_of(a.drop_first(), b.drop_first())
    } else {
        is_subseq_of(a, b.drop_first())
    }
}

/// Extending the base of a subsequence keeps the relation.
pub proof fn lemma_subseq_push_base(a: Seq<ProcessInfo>, b: Seq<ProcessInfo>, x: ProcessInfo)
    requires
        is_subseq_of(a, b),
    ensures
        is_subseq_of(a, b.push(x)),
    decreases b.len(),
{
    if a.len() == 0 {
        assert(is_subseq_of(a, b.push(x)));
    } else if b.len() == 0 {
    } else {
        assert(b.push(x)[0] == b[0]);
        assert(b.push(x).drop_first() =~= b.drop_first().push(x));
        if a[0] == b[0] {
            lemma_subseq_push_base(a.drop_first(), b.drop_first(), x);
        } else {
            lemma_subseq_push_base(a, b.drop_first(), x);
        }
    }
}

/// A single record is a subsequence of anything it is appended to.
proof fn lemma_subseq_single(b: Seq<ProcessInfo>, x: ProcessInfo)
    ensures
        is_subseq_of(seq![x], b.push(x)),
    decreases b.len(),
{
    if b.len() == 0 {
        assert(b.push(x) =~= seq![x]);
        assert(seq![x].drop_first() =~= Seq::<ProcessInfo>::empty());
        assert(is_subseq_of(Seq::<ProcessInfo>::empty(), Seq::<ProcessInfo>::empty()));
        assert(is_subseq_of(seq![x], seq![x]));
    } else {
        assert(b.push(x)[0] == b[0]);
        assert(b.push(x).drop_first() =~= b.drop_first().push(x));
        if x == b[0] {
            assert(seq![x].drop_first() =~= Seq::<ProcessInfo>::empty());
            assert(is_subseq_of(Seq::<ProcessInfo>::empty(), b.push(x).drop_first()));
        } else {
            lemma_subseq_single(b.drop_first(), x);
        }
    }
}

/// Appending the same record to both sides keeps the relation.
pub proof fn lemma_subseq_push_both(a: Seq<ProcessInfo>, b: Seq<ProcessInfo>, x: ProcessInfo)
    requires
        is_subseq_of(a, b),
    ensures
        is_subseq_of(a.push(x), b.push(x)),
    decreases b.len(),
{
    if a.len() == 0 {
        assert(a =~= Seq::<ProcessInfo>::empty());
        assert(a.push(x) =~= seq![x]);
        lemma_subseq_single(b, x);
    } else if b.len() == 0 {
    } else {
        assert(a.push(x)[0] == a[0]);
        assert(b.push(x)[0] == b[0]);
        assert(a.push(x).drop_first() =~= a.drop_first().push(x));
        assert(b.push(x).drop_first() =~= b.drop_first().push(x));
        if a[0] == b[0] {
            lemma_subseq_push_both(a.drop_first(), b.drop_first(), x);
        } else {
            lemma_subseq_push_both(a, b.drop_first(), x);
        }
    }
}

/// Exec counterpart of `struct_matches`, with the value pre-lower-cased.
fn record_matches(mode: FilterMode, value: &str, lower_value: &str, p: &ProcessInfo) -> (r: bool)
    requires
        lower_value@ == spec_lower(value@),
    ensures
        r == struct_matches(mode, value@, *p),
{
    match mode {
        FilterMode::User => match &p.user {
            Some(u) => {
                let lu = to_lower(u.as_str());
                str_contains(lu.as_str(), lower_value)
            },
            None => false,
        },
        FilterMode::Name => {
            let ln = to_lower(p.name.as_str());
            str_contains(ln.as_str(), lower_value)
        },
        FilterMode::Pid => {
            let ps = u64_to_string(p.pid as u64);
            assert((p.pid as u64) as nat == p.pid as nat);
            str_contains(ps.as_str(), value)
        },
        FilterMode::Ppid => match p.parent_pid {
            Some(pp) => {
                let ps = u64_to_string(pp as u64);
                assert((pp as u64) as nat == pp as nat);
                str_contains(ps.as_str(), value)
            },
            None => false,
        },
    }
}

/// The process registry.
pub struct ProcessManager {
    snapshot: Vec<ProcessInfo>,
    processes: Vec<ProcessInfo>,
    sort_mode: Option<SortKey>,
    sort_ascending: bool,
    filter_mode: Option<FilterMode>,
    filter_value: Option<String>,
    rule_engine: RuleEngine,
}

impl ProcessManager {
    /// The last full snapshot taken.
    pub closed spec fn spec_snapshot(self) -> Seq<ProcessInfo> {
        self.snapshot@
    }

    /// The externally visible, filtered and sorted list.
    pub closed spec fn visible(self) -> Seq<ProcessInfo> {
        self.processes@
    }

    pub closed spec fn spec_sort_mode(self) -> Option<SortKey> {
        self.sort_mode
    }

    pub closed spec fn spec_sort_ascending(self) -> bool {
        self.sort_ascending
    }

    pub closed spec fn spec_filter_mode(self) -> Option<FilterMode> {
        self.filter_mode
    }

    pub closed spec fn spec_filter_value(self) -> Option<Seq<char>> {
        match self.filter_value {
            Some(v) => Some(v@),
            None => None,
        }
    }

    /// Whether a non-blank rule is set; when it is, it decides membership
    /// instead of the structural filter.
    pub closed spec fn spec_rule_active(self) -> bool {
        self.rule_engine.spec_active()
    }

    /// What the visible list is when no rule is active: the structural
    /// filter and then the sort, applied to the snapshot.
    pub open spec fn spec_visible_no_rule(self) -> Seq<ProcessInfo> {
        spec_apply_sort(
            self.spec_sort_mode(),
            self.spec_sort_ascending(),
            spec_struct_filter(
                self.spec_filter_mode(),
                self.spec_filter_value(),
                self.spec_snapshot(),
            ),
        )
    }

    /// What every rebuild guarantees of the visible list: exact when no rule
    /// is active; with an active rule, the sort applied to the subsequence
    /// of the snapshot that the rule admitted.
    pub open spec fn visible_consistent(self) -> bool {
        if self.spec_rule_active() {
            exists|kept: Seq<ProcessInfo>|
                #[trigger] is_subseq_of(kept, self.spec_snapshot()) && self.visible()
                    == spec_apply_sort(self.spec_sort_mode(), self.spec_sort_ascending(), kept)
        } else {
            self.visible() == self.spec_visible_no_rule()
        }
    }

    /// The settings of the registry, unchanged by a refresh.
    pub open spec fn same_settings(self, other: Self) -> bool {
        &&& self.spec_sort_mode() == other.spec_sort_mode()
        &&& self.spec_sort_ascending() == other.spec_sort_ascending()
        &&& self.spec_filter_mode() == other.spec_filter_mode()
        &&& self.spec_filter_value() == other.spec_filter_value()
        &&& self.spec_rule_active() == other.spec_rule_active()
    }

    pub fn new() -> (r: Self)
        ensures
            r.spec_snapshot() == Seq::<ProcessInfo>::empty(),
            r.visible() == Seq::<ProcessInfo>::empty(),
            r.spec_sort_mode() is None,
            r.spec_filter_mode() is None,
            r.spec_filter_value() is None,
            !r.spec_rule_active(),
            r.visible_consistent(),
    {
        ProcessManager {
            snapshot: Vec::new(),
            processes: Vec::new(),
            sort_mode: None,
            sort_ascending: true,
            filter_mode: None,
            filter_value: None,
            rule_engine: RuleEngine::new(),
        }
    }

    /// One pass of the rule evaluator over the snapshot: keeps the records
    /// the active rule admits. The result is a subsequence of the snapshot,
    /// and the whole snapshot when no rule is active.
    fn rule_pass(&self) -> (kept: Vec<ProcessInfo>)
        ensures
            is_subseq_of(kept@, self.spec_snapshot()),
            !self.spec_rule_active() ==> kept@ == self.spec_snapshot(),
    {
        let mut kept: Vec<ProcessInfo> = Vec::new();
        let mut i: usize = 0;
        proof {
            assert(self.snapshot@.subrange(0, 0) =~= Seq::<ProcessInfo>::empty());
        }
        while i < self.snapshot.len()
            invariant
                i <= self.snapshot@.len(),
                is_subseq_of(kept@, self.snapshot@.subrange(0, i as int)),
                !self.spec_rule_active() ==> kept@ == self.snapshot@.subrange(0, i as int),
            decreases self.snapshot@.len() - i,
        {
            let ghost prefix = self.snapshot@.subrange(0, i as int);
            let wanted = self.rule_engine.evaluate_for(&self.snapshot[i]);
            if wanted {
                let ghost old_kept = kept@;
                kept.push(self.snapshot[i].clone());
                proof {
                    lemma_subseq_push_both(old_kept, prefix, self.snapshot@[i as int]);
                    assert(old_kept.push(self.snapshot@[i as int]) =~= kept@);
                }
            } else {
                proof {
                    lemma_subseq_push_base(kept@, prefix, self.snapshot@[i as int]);
                }
            }
            proof {
                assert(self.snapshot@.subrange(0, i as int + 1) =~= prefix.push(
                    self.snapshot@[i as int],
                ));
            }
            i = i + 1;
        }
        proof {
            assert(self.snapshot@.subrange(0, self.snapshot@.len() as int) =~= self.snapshot@);
        }
        kept
    }

    /// One pass of the structural filter over the snapshot.
    fn struct_pass(&self) -> (kept: Vec<ProcessInfo>)
        ensures
            kept@ == spec_struct_filter(
                self.spec_filter_mode(),
                self.spec_filter_value(),
                self.spec_snapshot(),
            ),
    {
        broadcast use group_filter_ensures;

        let (mode, value) = match (&self.filter_mode, &self.filter_value) {
            (Some(m), Some(v)) => (*m, v),
            _ => {
                let mut all: Vec<ProcessInfo> = Vec::new();
                let mut i: usize = 0;
                proof {
                    assert(self.snapshot@.subrange(0, 0) =~= Seq::<ProcessInfo>::empty());
                }
                while i < self.snapshot.len()
                    invariant
                        i <= self.snapshot@.len(),
                        all@ == self.snapshot@.subrange(0, i as int),
                    decreases self.snapshot@.len() - i,
                {
                    all.push(self.snapshot[i].clone());
                    proof {
                        assert(all@ =~= self.snapshot@.subrange(0, i as int + 1));
                    }
                    i = i + 1;
                }
                proof {
                    assert(self.snapshot@.subrange(0, self.snapshot@.len() as int)
                        =~= self.snapshot@);
                }
                return all;
            },
        };
        let ghost val = value@;
        let ghost pred = |p: ProcessInfo| struct_matches(mode, val, p);
        let lower_value = to_lower(value.as_str());
        let mut kept: Vec<ProcessInfo> = Vec::new();
        let mut i: usize = 0;
        proof {
            assert(self.snapshot@.subrange(0, 0).filter(pred) =~= Seq::<ProcessInfo>::empty());
        }
        while i < self.snapshot.len()
            invariant
                i <= self.snapshot@.len(),
                val == self.spec_filter_value()->0,
                value@ == val,
                self.spec_filter_mode() == Some(mode),
                lower_value@ == spec_lower(val),
                pred == (|p: ProcessInfo| struct_matches(mode, val, p)),
                kept@ == self.snapshot@.subrange(0, i as int).filter(pred),
            decreases self.snapshot@.len() - i,
        {
            let ghost prefix = self.snapshot@.subrange(0, i as int);
            let p = &self.snapshot[i];
            let hit = record_matches(mode, value.as_str(), lower_value.as_str(), p);
            assert(hit == pred(self.snapshot@[i as int]));
            if hit {
                kept.push(self.snapshot[i].clone());
            }
            proof {
                assert(self.snapshot@.subrange(0, i as int + 1) =~= prefix.push(
                    self.snapshot@[i as int],
                ));
                prefix.lemma_filter_push(self.snapshot@[i as int], pred);
            }
            i = i + 1;
        }
        proof {
            assert(self.snapshot@.subrange(0, self.snapshot@.len() as int) =~= self.snapshot@);
        }
        kept
    }

    /// Recomputes the visible list from the stored snapshot: the rule pass
    /// (when a rule is active) or the structural filter, then the sort.
    fn rebuild(&mut self)
        ensures
            final(self).spec_snapshot() == old(self).spec_snapshot(),
            old(self).same_settings(*final(self)),
            final(self).visible_consistent(),
    {
        let active = self.rule_engine.active();
        let kept = if active {
            self.rule_pass()
        } else {
            self.struct_pass()
        };
        let ghost kept_view = kept@;
        let sorted = match self.sort_mode {
            Some(key) => sort_records(&kept, key, self.sort_ascending),
            None => kept,
        };
        self.processes = sorted;
        proof {
            if self.spec_rule_active() {
                assert(is_subseq_of(kept_view, self.spec_snapshot()));
                assert(self.visible() == spec_apply_sort(
                    self.spec_sort_mode(),
                    self.spec_sort_ascending(),
                    kept_view,
                ));
            } else {
                assert(self.visible() == self.spec_visible_no_rule());
            }
        }
    }

    /// Replaces the snapshot with a fresh one and recomputes the visible
    /// list, returning the previously visible list so the lifecycle log can
    /// diff against it. An empty snapshot yields an empty list, never an
    /// error.
    pub fn refresh(&mut self, snapshot: Vec<ProcessInfo>) -> (prev: Vec<ProcessInfo>)
        ensures
            prev@ == old(self).visible(),
            final(self).spec_snapshot() == snapshot@,
            old(self).same_settings(*final(self)),
            final(self).visible_consistent(),
    {
        self.snapshot = snapshot;
        let mut prev: Vec<ProcessInfo> = Vec::new();
        std::mem::swap(&mut self.processes, &mut prev);
        self.rebuild();
        prev
    }

    /// Sets the sort key and direction and re-sorts the visible list in
    /// place (membership is untouched).
    pub fn set_sort(&mut self, key: SortKey, ascending: bool)
        ensures
            final(self).spec_sort_mode() == Some(key),
            final(self).spec_sort_ascending() == ascending,
            final(self).visible() == spec_sort_records(key, ascending, old(self).visible()),
            final(self).spec_snapshot() == old(self).spec_snapshot(),
            final(self).spec_filter_mode() == old(self).spec_filter_mode(),
            final(self).spec_filter_value() == old(self).spec_filter_value(),
            final(self).spec_rule_active() == old(self).spec_rule_active(),
    {
        self.sort_mode = Some(key);
        self.sort_ascending = ascending;
        let sorted = sort_records(&self.processes, key, ascending);
        self.processes = sorted;
    }

    /// Sets (or clears) the structural filter and recomputes the visible
    /// list from the stored snapshot.
    pub fn set_filter(&mut self, mode: Option<FilterMode>, value: Option<String>)
        ensures
            final(self).spec_filter_mode() == mode,
            final(self).spec_filter_value() == (match value {
                Some(v) => Some(v@),
                None => None::<Seq<char>>,
            }),
            final(self).spec_snapshot() == old(self).spec_snapshot(),
            final(self).spec_sort_mode() == old(self).spec_sort_mode(),
            final(self).spec_sort_ascending() == old(self).spec_sort_ascending(),
            final(self).spec_rule_active() == old(self).spec_rule_active(),
            final(self).visible_consistent(),
    {
        self.filter_mode = mode;
        self.filter_value = value;
        self.rebuild();
    }

    /// Installs a rule expression; a non-blank rule takes precedence over
    /// the structural filter from the next rebuild on. The visible list is
    /// recomputed at once.
    pub fn set_rule(&mut self, rule: String)
        ensures
            final(self).spec_rule_active() == !crate::rules::spec_blank(rule@),
            final(self).spec_snapshot() == old(self).spec_snapshot(),
            final(self).spec_sort_mode() == old(self).spec_sort_mode(),
            final(self).spec_sort_ascending() == old(self).spec_sort_ascending(),
            final(self).spec_filter_mode() == old(self).spec_filter_mode(),
            final(self).spec_filter_value() == old(self).spec_filter_value(),
            final(self).visible_consistent(),
    {
        self.rule_engine.set_rule(rule);
        self.rebuild();
    }

    /// The visible list, already filtered and sorted.
    pub fn get_processes(&self) -> (r: &Vec<ProcessInfo>)
        ensures
            r@ == self.visible(),
    {
        &self.processes
    }

    /// Sends the signal of the given kind to the pid through the OS
    /// adapter. A failure surfaces as the mapped OS error, exactly once —
    /// no retry.
    pub fn signal<C: ProcessControl>(&self, ctl: &mut C, pid: u32, kind: SignalKind) -> (r:
        Result<(), ProcError>)
        ensures
            r != Err::<(), ProcError>(ProcError::InvalidInput),
            r != Err::<(), ProcError>(ProcError::ExpressionError),
    {
        let n = signal_number(kind);
        match ctl.send_signal(pid, n) {
            Ok(()) => Ok(()),
            Err(errno) => Err(classify_errno(errno)),
        }
    }

    /// Changes the niceness of the pid: a value outside `-20..=19` is
    /// rejected as invalid input before any OS call, and lowering niceness
    /// without an effective uid of zero is denied; otherwise the OS decides
    /// and its failure surfaces as the mapped error.
    pub fn set_niceness<C: ProcessControl>(&self, ctl: &mut C, pid: u32, nice: i32) -> (r: Result<
        (),
        ProcError,
    >)
        ensures
            (nice < -20 || nice > 19) <==> r == Err::<(), ProcError>(ProcError::InvalidInput),
            r != Err::<(), ProcError>(ProcError::ExpressionError),
    {
        if nice < -20 || nice > 19 {
            return Err(ProcError::InvalidInput);
        }
        let euid = ctl.effective_uid();
        match priority_precheck(nice, euid) {
            Some(e) => Err(e),
            None => match ctl.set_os_priority(pid, nice) {
                Ok(()) => Ok(()),
                Err(errno) => Err(classify_errno(errno)),
            },
        }
    }

    /// Stops (pauses) the process, as `signal` with the stop kind.
    pub fn stop_process<C: ProcessControl>(&self, ctl: &mut C, pid: u32) -> (r: Result<
        (),
        ProcError,
    >)
        ensures
            r != Err::<(), ProcError>(ProcError::InvalidInput),
            r != Err::<(), ProcError>(ProcError::ExpressionError),
    {
        self.signal(ctl, pid, SignalKind::Stop)
    }

    /// Kills the process, as `signal` with the kill kind.
    pub fn kill_process<C: ProcessControl>(&self, ctl: &mut C, pid: u32) -> (r: Result<
        (),
        ProcError,
    >)
        ensures
            r != Err::<(), ProcError>(ProcError::InvalidInput),
            r != Err::<(), ProcError>(ProcError::ExpressionError),
    {
        self.signal(ctl, pid, SignalKind::Kill)
    }
}

} // verus!
