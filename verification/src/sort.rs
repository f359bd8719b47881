//! Stable sorting. The sort is an insertion sort, specified by a recursive
//! model (`spec_sort`) over an arbitrary total preorder: the model makes the
//! stability of ties explicit and yields the idempotence law — sorting an
//! already sorted sequence changes nothing. The registry instantiates it
//! with its sort keys; the exit log's grouped view with the count order.
use vstd::prelude::*;
use vstd::seq_lib::group_to_multiset_ensures;
use crate::record::ProcessInfo;
use crate::text::{lex_le, str_lex_le, lemma_lex_le_total, lemma_lex_le_trans};

verus! {

/// The order is total: any two elements compare one way or the other.
pub open spec fn total_leq<T>(leq: spec_fn(T, T) -> bool) -> bool {
    forall|a: T, b: T| #[trigger] leq(a, b) || #[trigger] leq(b, a)
}

/// The order is transitive.
pub open spec fn trans_leq<T>(leq: spec_fn(T, T) -> bool) -> bool {
    forall|a: T, b: T, c: T| #[trigger] leq(a, b) && #[trigger] leq(b, c) ==> leq(a, c)
}

/// The sequence is non-decreasing in the order.
pub open spec fn sorted_le<T>(leq: spec_fn(T, T) -> bool, s: Seq<T>) -> bool {
    forall|i: int, j: int| 0 <= i < j < s.len() ==> leq(s[i], s[j])
}

/// Stable insertion of one element into a sorted sequence: the element walks
/// in from the back past everything strictly greater, so it lands after any
/// element that compares equal — ties keep their original order.
pub open spec fn spec_insert<T>(leq: spec_fn(T, T) -> bool, s: Seq<T>, x: T) -> Seq<T>
    decreases s.len(),
{
    if s.len() == 0 {
        seq![x]
    } else if leq(s.last(), x) {
        s.push(x)
    } else {
        spec_insert(leq, s.drop_last(), x).push(s.last())
    }
}

/// Stable insertion sort: each element in turn is inserted into the sorted
/// image of the elements before it.
pub open spec fn spec_sort<T>(leq: spec_fn(T, T) -> bool, s: Seq<T>) -> Seq<T>
    decreases s.len(),
{
    if s.len() == 0 {
        Seq::<T>::empty()
    } else {
        spec_insert(leq, spec_sort(leq, s.drop_last()), s.last())
    }
}

/// Every element of an insertion result is the inserted element or one of
/// the old ones, and the length grows by one.
pub proof fn lemma_insert_membership<T>(leq: spec_fn(T, T) -> bool, s: Seq<T>, x: T)
    ensures
        spec_insert(leq, s, x).len() == s.len() + 1,
        forall|i: int|
            0 <= i < spec_insert(leq, s, x).len() ==> (spec_insert(leq, s, x)[i] == x
                || s.contains(spec_insert(leq, s, x)[i])),
    decreases s.len(),
{
    let r = spec_insert(leq, s, x);
    if s.len() == 0 {
    } else if leq(s.last(), x) {
    } else {
        lemma_insert_membership(leq, s.drop_last(), x);
        let front = spec_insert(leq, s.drop_last(), x);
        assert forall|i: int| 0 <= i < r.len() implies (r[i] == x || s.contains(r[i])) by {
            if i < front.len() {
                assert(r[i] == front[i]);
                if front[i] != x {
                    let k = choose|k: int|
                        0 <= k < s.drop_last().len() && s.drop_last()[k] == front[i];
                    assert(s[k] == front[i]);
                }
            } else {
                assert(r[i] == s.last());
            }
        }
    }
}

/// Insertion keeps every old element and adds the new one.
pub proof fn lemma_insert_contains<T>(leq: spec_fn(T, T) -> bool, s: Seq<T>, x: T)
    ensures
        spec_insert(leq, s, x).contains(x),
        forall|y: T| s.contains(y) ==> spec_insert(leq, s, x).contains(y),
    decreases s.len(),
{
    let r = spec_insert(leq, s, x);
    if s.len() == 0 {
        assert(r[0] == x);
    } else if leq(s.last(), x) {
        assert(r[s.len() as int] == x);
        assert forall|y: T| s.contains(y) implies r.contains(y) by {
            let k = choose|k: int| 0 <= k < s.len() && s[k] == y;
            assert(r[k] == y);
        }
    } else {
        lemma_insert_contains(leq, s.drop_last(), x);
        let front = spec_insert(leq, s.drop_last(), x);
        assert forall|y: T| s.contains(y) implies r.contains(y) by {
            let k = choose|k: int| 0 <= k < s.len() && s[k] == y;
            if k == s.len() - 1 {
                assert(r.last() == s.last());
            } else {
                assert(s.drop_last()[k] == y);
                assert(s.drop_last().contains(y));
                assert(front.contains(y));
                let m = choose|m: int| 0 <= m < front.len() && front[m] == y;
                assert(r[m] == y);
            }
        }
        assert(front.contains(x));
        let m = choose|m: int| 0 <= m < front.len() && front[m] == x;
        assert(r[m] == x);
    }
}

/// An insertion result is the old sequence with the new element spliced in
/// at one position.
pub proof fn lemma_insert_decomposition<T>(leq: spec_fn(T, T) -> bool, s: Seq<T>, x: T)
    ensures
        exists|k: int|
            0 <= k <= s.len() && spec_insert(leq, s, x) == s.subrange(0, k) + seq![x] + s.subrange(
                k,
                s.len() as int,
            ),
    decreases s.len(),
{
    if s.len() == 0 {
        assert(spec_insert(leq, s, x) =~= s.subrange(0, 0) + seq![x] + s.subrange(
            0,
            s.len() as int,
        ));
    } else if leq(s.last(), x) {
        assert(spec_insert(leq, s, x) =~= s.subrange(0, s.len() as int) + seq![x] + s.subrange(
            s.len() as int,
            s.len() as int,
        ));
    } else {
        lemma_insert_decomposition(leq, s.drop_last(), x);
        let front = s.drop_last();
        let k = choose|k: int|
            0 <= k <= front.len() && spec_insert(leq, front, x) == front.subrange(0, k) + seq![x]
                + front.subrange(k, front.len() as int);
        assert(front.subrange(0, k) =~= s.subrange(0, k));
        assert(spec_insert(leq, s, x) =~= s.subrange(0, k) + seq![x] + s.subrange(
            k,
            s.len() as int,
        ));
    }
}

/// Inserting into a sorted sequence keeps it sorted.
pub proof fn lemma_insert_sorted<T>(leq: spec_fn(T, T) -> bool, s: Seq<T>, x: T)
    requires
        total_leq(leq),
        trans_leq(leq),
        sorted_le(leq, s),
    ensures
        sorted_le(leq, spec_insert(leq, s, x)),
    decreases s.len(),
{
    let r = spec_insert(leq, s, x);
    if s.len() == 0 {
    } else if leq(s.last(), x) {
        assert forall|i: int, j: int| 0 <= i < j < r.len() implies leq(r[i], r[j]) by {
            if j == r.len() - 1 && i < s.len() - 1 {
                assert(leq(s[i], s.last()) && leq(s.last(), x));
            }
        }
    } else {
        let front = spec_insert(leq, s.drop_last(), x);
        assert(sorted_le(leq, s.drop_last()));
        lemma_insert_sorted(leq, s.drop_last(), x);
        lemma_insert_membership(leq, s.drop_last(), x);
        assert forall|i: int, j: int| 0 <= i < j < r.len() implies leq(r[i], r[j]) by {
            if j == r.len() - 1 {
                assert(r[j] == s.last());
                assert(r[i] == front[i]);
                if front[i] == x {
                    assert(leq(x, s.last()));
                } else {
                    let k = choose|k: int|
                        0 <= k < s.drop_last().len() && s.drop_last()[k] == front[i];
                    assert(leq(s[k], s.last()));
                }
            }
        }
    }
}

/// Insertion adds exactly the inserted element to the contents.
pub proof fn lemma_insert_multiset<T>(leq: spec_fn(T, T) -> bool, s: Seq<T>, x: T)
    ensures
        spec_insert(leq, s, x).to_multiset() == s.to_multiset().insert(x),
    decreases s.len(),
{
    broadcast use group_to_multiset_ensures;

    if s.len() == 0 {
        assert(seq![x] =~= Seq::<T>::empty().push(x));
        assert(Seq::<T>::empty().push(x).to_multiset() =~= Seq::<T>::empty().to_multiset().insert(
            x,
        ));
    } else if leq(s.last(), x) {
    } else {
        lemma_insert_multiset(leq, s.drop_last(), x);
        assert(s.drop_last().push(s.last()) =~= s);
        assert(spec_insert(leq, s, x).to_multiset() =~= s.to_multiset().insert(x));
    }
}

/// The sorted image is non-decreasing in the order.
pub proof fn lemma_sort_sorted<T>(leq: spec_fn(T, T) -> bool, s: Seq<T>)
    requires
        total_leq(leq),
        trans_leq(leq),
    ensures
        sorted_le(leq, spec_sort(leq, s)),
    decreases s.len(),
{
    if s.len() > 0 {
        lemma_sort_sorted(leq, s.drop_last());
        lemma_insert_sorted(leq, spec_sort(leq, s.drop_last()), s.last());
    }
}

/// Sorting permutes the elements: the contents are unchanged.
pub proof fn lemma_sort_multiset<T>(leq: spec_fn(T, T) -> bool, s: Seq<T>)
    ensures
        spec_sort(leq, s).to_multiset() == s.to_multiset(),
    decreases s.len(),
{
    broadcast use group_to_multiset_ensures;

    if s.len() > 0 {
        lemma_sort_multiset(leq, s.drop_last());
        lemma_insert_multiset(leq, spec_sort(leq, s.drop_last()), s.last());
        assert(s.drop_last().push(s.last()) =~= s);
        assert(spec_sort(leq, s).to_multiset() =~= s.to_multiset());
    }
}

/// A sequence already sorted is a fixed point of the sort: the stable
/// insertion appends each element at the back.
pub proof fn lemma_sort_of_sorted<T>(leq: spec_fn(T, T) -> bool, s: Seq<T>)
    requires
        sorted_le(leq, s),
    ensures
        spec_sort(leq, s) == s,
    decreases s.len(),
{
    if s.len() > 0 {
        assert(sorted_le(leq, s.drop_last()));
        lemma_sort_of_sorted(leq, s.drop_last());
        if s.len() == 1 {
            assert(spec_sort(leq, s) =~= s);
        } else {
            assert(leq(s[s.len() - 2], s.last()));
            assert(s.drop_last().last() == s[s.len() - 2]);
            assert(spec_sort(leq, s) =~= s);
        }
    }
}

/// Law: applying the same sort twice yields the same ordering as applying
/// it once.
pub proof fn lemma_sort_idempotent<T>(leq: spec_fn(T, T) -> bool, s: Seq<T>)
    requires
        total_leq(leq),
        trans_leq(leq),
    ensures
        spec_sort(leq, spec_sort(leq, s)) == spec_sort(leq, s),
{
    lemma_sort_sorted(leq, s);
    lemma_sort_of_sorted(leq, spec_sort(leq, s));
}

/// Where the inserted element lands: before the maximal strictly-greater
/// suffix, after everything else.
pub proof fn lemma_insert_at<T>(leq: spec_fn(T, T) -> bool, s: Seq<T>, x: T, j: int)
    requires
        0 <= j <= s.len(),
        forall|k: int| j <= k < s.len() ==> !leq(s[k], x),
        j > 0 ==> leq(s[j - 1], x),
    ensures
        spec_insert(leq, s, x) == s.subrange(0, j) + seq![x] + s.subrange(j, s.len() as int),
    decreases s.len(),
{
    if s.len() == 0 {
        assert(spec_insert(leq, s, x) =~= s.subrange(0, j) + seq![x] + s.subrange(
            j,
            s.len() as int,
        ));
    } else if leq(s.last(), x) {
        assert(j == s.len());
        assert(spec_insert(leq, s, x) =~= s.subrange(0, j) + seq![x] + s.subrange(
            j,
            s.len() as int,
        ));
    } else {
        assert(j < s.len());
        lemma_insert_at(leq, s.drop_last(), x, j);
        assert(spec_insert(leq, s, x) =~= s.subrange(0, j) + seq![x] + s.subrange(
            j,
            s.len() as int,
        ));
    }
}

/// The sortable columns of the registry.
#[derive(Clone, Copy, Debug, PartialEq, Eq, Structural)]
pub enum SortKey {
    Pid,
    Cpu,
    Mem,
    Ppid,
    Nice,
    Start,
}

/// A missing parent pid sorts as zero, as the display columns render it.
pub open spec fn opt_pid(p: Option<u32>) -> u32 {
    match p {
        Some(v) => v,
        None => 0u32,
    }
}

/// Ascending comparison on the chosen key. Numeric keys compare their
/// integers; the start key compares the formatted timestamp string
/// lexicographically — a known fragility at day boundaries, kept
/// deliberately because the column shows exactly that string.
pub open spec fn key_le_base(key: SortKey, a: ProcessInfo, b: ProcessInfo) -> bool {
    match key {
        SortKey::Pid => a.pid <= b.pid,
        SortKey::Cpu => a.cpu_usage <= b.cpu_usage,
        SortKey::Mem => a.memory_usage <= b.memory_usage,
        SortKey::Ppid => opt_pid(a.parent_pid) <= opt_pid(b.parent_pid),
        SortKey::Nice => a.nice <= b.nice,
        SortKey::Start => lex_le(a.start_time_str@, b.start_time_str@),
    }
}

/// The comparison the registry sorts with: the base order for ascending
/// sorts, its mirror image for descending ones.
pub open spec fn key_le(key: SortKey, asc: bool, a: ProcessInfo, b: ProcessInfo) -> bool {
    if asc {
        key_le_base(key, a, b)
    } else {
        key_le_base(key, b, a)
    }
}

/// The key comparison as a first-class order, for use with `spec_sort`.
pub open spec fn record_leq(key: SortKey, asc: bool) -> spec_fn(ProcessInfo, ProcessInfo) -> bool {
    |a: ProcessInfo, b: ProcessInfo| key_le(key, asc, a, b)
}

/// The sorted image of a record sequence under the chosen key.
pub open spec fn spec_sort_records(key: SortKey, asc: bool, s: Seq<ProcessInfo>) -> Seq<
    ProcessInfo,
> {
    spec_sort(record_leq(key, asc), s)
}

pub proof fn lemma_record_leq_total_trans(key: SortKey, asc: bool)
    ensures
        total_leq(record_leq(key, asc)),
        trans_leq(record_leq(key, asc)),
{
    let leq = record_leq(key, asc);
    assert forall|a: ProcessInfo, b: ProcessInfo| #[trigger] leq(a, b) || #[trigger] leq(b, a) by {
        if key is Start {
            lemma_lex_le_total(a.start_time_str@, b.start_time_str@);
        }
    }
    assert forall|a: ProcessInfo, b: ProcessInfo, c: ProcessInfo|
        #[trigger] leq(a, b) && #[trigger] leq(b, c) implies leq(a, c) by {
        if key is Start {
            if asc {
                lemma_lex_le_trans(a.start_time_str@, b.start_time_str@, c.start_time_str@);
            } else {
                lemma_lex_le_trans(c.start_time_str@, b.start_time_str@, a.start_time_str@);
            }
        }
    }
}

/// Law: the registry's sorted view is non-decreasing in the chosen key and
/// direction.
pub proof fn lemma_sort_records_sorted(key: SortKey, asc: bool, s: Seq<ProcessInfo>)
    ensures
        sorted_le(record_leq(key, asc), spec_sort_records(key, asc, s)),
{
    lemma_record_leq_total_trans(key, asc);
    lemma_sort_sorted(record_leq(key, asc), s);
}

/// Law: sorting permutes the records and nothing else — the visible
/// membership is unchanged by a sort.
pub proof fn lemma_sort_records_multiset(key: SortKey, asc: bool, s: Seq<ProcessInfo>)
    ensures
        spec_sort_records(key, asc, s).to_multiset() == s.to_multiset(),
{
    lemma_sort_multiset(record_leq(key, asc), s);
}

/// Law: applying the same sort twice yields the identical ordering — the
/// second application of `set_sort` with the same key and direction is a
/// no-op on the visible list.
pub proof fn lemma_sort_records_idempotent(key: SortKey, asc: bool, s: Seq<ProcessInfo>)
    ensures
        spec_sort_records(key, asc, spec_sort_records(key, asc, s)) == spec_sort_records(
            key,
            asc,
            s,
        ),
{
    lemma_record_leq_total_trans(key, asc);
    lemma_sort_idempotent(record_leq(key, asc), s);
}

/// Exec counterpart of `key_le_base`.
fn record_le_base(key: SortKey, a: &ProcessInfo, b: &ProcessInfo) -> (r: bool)
    ensures
        r == key_le_base(key, *a, *b),
{
    match key {
        SortKey::Pid => a.pid <= b.pid,
        SortKey::Cpu => a.cpu_usage <= b.cpu_usage,
        SortKey::Mem => a.memory_usage <= b.memory_usage,
        SortKey::Ppid => {
            let pa = match a.parent_pid {
                Some(v) => v,
                None => 0,
            };
            let pb = match b.parent_pid {
                Some(v) => v,
                None => 0,
            };
            pa <= pb
        },
        SortKey::Nice => a.nice <= b.nice,
        SortKey::Start => str_lex_le(a.start_time_str.as_str(), b.start_time_str.as_str()),
    }
}

/// Exec counterpart of `key_le`.
fn record_le(key: SortKey, asc: bool, a: &ProcessInfo, b: &ProcessInfo) -> (r: bool)
    ensures
        r == key_le(key, asc, *a, *b),
{
    if asc {
        record_le_base(key, a, b)
    } else {
        record_le_base(key, b, a)
    }
}

/// Inserts one record into a vector at its stable sort position.
fn insert_sorted_vec(out: &mut Vec<ProcessInfo>, x: ProcessInfo, key: SortKey, asc: bool)
    ensures
        final(out)@ == spec_insert(record_leq(key, asc), old(out)@, x),
{
    let ghost leq = record_leq(key, asc);
    let mut j: usize = out.len();
    while j > 0 && !record_le(key, asc, &out[j - 1], &x)
        invariant
            j <= out@.len(),
            out == old(out),
            leq == record_leq(key, asc),
            forall|k: int| j <= k < out@.len() ==> !leq(out@[k], x),
        decreases j,
    {
        j = j - 1;
    }
    out.insert(j, x);
    proof {
        lemma_insert_at(leq, old(out)@, x, j as int);
        assert(out@ =~= old(out)@.subrange(0, j as int) + seq![x] + old(out)@.subrange(
            j as int,
            old(out)@.len() as int,
        ));
    }
}

/// Stable insertion sort of a record list by the chosen key and direction.
pub fn sort_records(v: &Vec<ProcessInfo>, key: SortKey, asc: bool) -> (r: Vec<ProcessInfo>)
    ensures
        r@ == spec_sort_records(key, asc, v@),
{
    let ghost leq = record_leq(key, asc);
    let mut out: Vec<ProcessInfo> = Vec::new();
    let mut i: usize = 0;
    proof {
        assert(v@.subrange(0, 0) =~= Seq::<ProcessInfo>::empty());
    }
    while i < v.len()
        invariant
            i <= v@.len(),
            leq == record_leq(key, asc),
            out@ == spec_sort(leq, v@.subrange(0, i as int)),
        decreases v@.len() - i,
    {
        let x = v[i].clone();
        insert_sorted_vec(&mut out, x, key, asc);
        proof {
            assert(v@.subrange(0, i as int + 1).drop_last() =~= v@.subrange(0, i as int));
            assert(v@.subrange(0, i as int + 1).last() == v@[i as int]);
        }
        i = i + 1;
    }
    proof {
        assert(v@.subrange(0, v@.len() as int) =~= v@);
    }
    out
}

} // verus!
