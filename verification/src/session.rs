//! A model of one monitoring session: the sequence of entry and exit
//! events the correlated probe pair observes, the evolution of the
//! pending map under them, and the duration records they emit. The
//! session law at the end states that in a paired trace every exit
//! yields exactly one record, computed from its own task's start time
//! alone.

use vstd::prelude::*;
use crate::probes::DurationRecord;
use crate::probes::entry_step;
use crate::probes::exit_step;
use crate::probes::exit_emit;

verus! {

/// One kernel event as the correlated probe pair sees it.
pub enum ProbeEvent {
    /// The task entered the traced call at the given time.
    Enter { task: u64, ts: u64 },
    /// The task left the traced call at the given time.
    Exit { task: u64, ts: u64 },
}

/// Whether the event is an entry event.
pub open spec fn is_enter(ev: ProbeEvent) -> bool {
    ev is Enter
}

/// Whether the event is an exit event.
pub open spec fn is_exit(ev: ProbeEvent) -> bool {
    ev is Exit
}

/// The task the event belongs to.
pub open spec fn task_of(ev: ProbeEvent) -> u64 {
    match ev {
        ProbeEvent::Enter { task, .. } => task,
        ProbeEvent::Exit { task, .. } => task,
    }
}

/// The timestamp of the event.
pub open spec fn ts_of(ev: ProbeEvent) -> u64 {
    match ev {
        ProbeEvent::Enter { ts, .. } => ts,
        ProbeEvent::Exit { ts, .. } => ts,
    }
}

/// How one event changes the pending map of a store with capacity
/// `cap`.
pub open spec fn step_map(m: Map<u64, u64>, cap: nat, ev: ProbeEvent) -> Map<u64, u64> {
    match ev {
        ProbeEvent::Enter { task, ts } => entry_step(m, cap, task, ts),
        ProbeEvent::Exit { task, .. } => exit_step(m, task),
    }
}

/// What one event emits, given the pending map it meets.
pub open spec fn step_emit(m: Map<u64, u64>, ev: ProbeEvent) -> Option<DurationRecord> {
    match ev {
        ProbeEvent::Enter { .. } => None,
        ProbeEvent::Exit { task, ts } => exit_emit(m, task, ts),
    }
}

/// The pending map after a session that starts empty and processes
/// `evs` in order.
pub open spec fn run_map(cap: nat, evs: Seq<ProbeEvent>) -> Map<u64, u64>
    decreases evs.len(),
{
    if evs.len() == 0 {
        Map::empty()
    } else {
        step_map(run_map(cap, evs.drop_last()), cap, evs.last())
    }
}

/// The duration records such a session emits, in emission order.
pub open spec fn run_records(cap: nat, evs: Seq<ProbeEvent>) -> Seq<DurationRecord>
    decreases evs.len(),
{
    if evs.len() == 0 {
        Seq::empty()
    } else {
        run_records(cap, evs.drop_last()) + match step_emit(
            run_map(cap, evs.drop_last()),
            evs.last(),
        ) {
            Some(rec) => seq![rec],
            None => Seq::empty(),
        }
    }
}

/// The number of entry events in the trace.
pub open spec fn count_enters(evs: Seq<ProbeEvent>) -> nat
    decreases evs.len(),
{
    if evs.len() == 0 {
        0
    } else {
        count_enters(evs.drop_last()) + if is_enter(evs.last()) {
            1nat
        } else {
            0nat
        }
    }
}

/// The number of exit events in the trace.
pub open spec fn count_exits(evs: Seq<ProbeEvent>) -> nat
    decreases evs.len(),
{
    if evs.len() == 0 {
        0
    } else {
        count_exits(evs.drop_last()) + if is_exit(evs.last()) {
            1nat
        } else {
            0nat
        }
    }
}

/// No two entry events share a task.
pub open spec fn enters_distinct(evs: Seq<ProbeEvent>) -> bool {
    forall|i: int, j: int|
        0 <= i < j < evs.len() && is_enter(evs[i]) && is_enter(evs[j]) ==> task_of(evs[i])
            != task_of(evs[j])
}

/// No two exit events share a task.
pub open spec fn exits_distinct(evs: Seq<ProbeEvent>) -> bool {
    forall|i: int, j: int|
        0 <= i < j < evs.len() && is_exit(evs[i]) && is_exit(evs[j]) ==> task_of(evs[i])
            != task_of(evs[j])
}

/// Every exit event has an earlier entry event of the same task.
pub open spec fn exits_matched(evs: Seq<ProbeEvent>) -> bool {
    forall|j: int|
        0 <= j < evs.len() && is_exit(evs[j]) ==> exists|i: int|
            0 <= i < j && is_enter(#[trigger] evs[i]) && task_of(evs[i]) == task_of(evs[j])
}

/// Timestamps come from one monotonic counter: a task's entry is
/// never later than its exit.
pub open spec fn trace_ordered(evs: Seq<ProbeEvent>) -> bool {
    forall|i: int, j: int|
        0 <= i < j < evs.len() && is_enter(evs[i]) && is_exit(evs[j]) && task_of(evs[i]) == task_of(
            evs[j],
        ) ==> ts_of(evs[i]) <= ts_of(evs[j])
}

/// A paired trace: entry/exit pairs with pairwise-distinct tasks,
/// every exit preceded by its entry, under a monotonic clock.
pub open spec fn paired_trace(evs: Seq<ProbeEvent>) -> bool {
    &&& enters_distinct(evs)
    &&& exits_distinct(evs)
    &&& exits_matched(evs)
    &&& trace_ordered(evs)
}

/// Whether some entry event of `task` lies before position `k`.
pub open spec fn entered_before(evs: Seq<ProbeEvent>, k: int, task: u64) -> bool {
    exists|i: int| 0 <= i < k && is_enter(#[trigger] evs[i]) && task_of(evs[i]) == task
}

/// Whether some exit event of `task` lies before position `k`.
pub open spec fn exited_before(evs: Seq<ProbeEvent>, k: int, task: u64) -> bool {
    exists|j: int| 0 <= j < k && is_exit(#[trigger] evs[j]) && task_of(evs[j]) == task
}

/// The position of the entry event of `task` (unique in a paired
/// trace).
pub open spec fn enter_index(evs: Seq<ProbeEvent>, task: u64) -> int {
    choose|i: int| 0 <= i < evs.len() && is_enter(#[trigger] evs[i]) && task_of(evs[i]) == task
}

/// The start time the trace records for `task`.
pub open spec fn enter_ts(evs: Seq<ProbeEvent>, task: u64) -> u64 {
    ts_of(evs[enter_index(evs, task)])
}

/// The record a paired trace owes for the exit event at position `j`:
/// the duration from the task's own entry to this exit.
pub open spec fn owed_record(evs: Seq<ProbeEvent>, j: int) -> DurationRecord {
    DurationRecord {
        task: task_of(evs[j]),
        duration_ns: (ts_of(evs[j]) - enter_ts(evs, task_of(evs[j]))) as u64,
    }
}

proof fn lemma_count_enters_le(evs: Seq<ProbeEvent>, a: int, b: int)
    requires
        0 <= a <= b <= evs.len(),
    ensures
        count_enters(evs.take(a)) <= count_enters(evs.take(b)),
    decreases b - a,
{
    if a < b {
        lemma_count_enters_le(evs, a, b - 1);
        assert(evs.take(b).drop_last() =~= evs.take(b - 1));
        assert(count_enters(evs.take(b)) == count_enters(evs.take(b - 1)) + if is_enter(
            evs[b - 1],
        ) {
            1nat
        } else {
            0nat
        });
    }
}

proof fn lemma_count_exits_le(evs: Seq<ProbeEvent>, a: int, b: int)
    requires
        0 <= a <= b <= evs.len(),
    ensures
        count_exits(evs.take(a)) <= count_exits(evs.take(b)),
    decreases b - a,
{
    if a < b {
        lemma_count_exits_le(evs, a, b - 1);
        assert(evs.take(b).drop_last() =~= evs.take(b - 1));
        assert(count_exits(evs.take(b)) == count_exits(evs.take(b - 1)) + if is_exit(evs[b - 1]) {
            1nat
        } else {
            0nat
        });
    }
}

/// The session invariant, proved for every prefix of a paired trace:
/// a task is pending exactly between its entry and its exit, its
/// pending start time is its own entry time, the pending entries are
/// exactly the entries seen less the exits seen, and the records
/// emitted so far are exactly one per exit seen, each the owed one.
proof fn lemma_session_invariant(cap: nat, evs: Seq<ProbeEvent>, k: int)
    requires
        paired_trace(evs),
        count_enters(evs) <= cap,
        0 <= k <= evs.len(),
    ensures
        run_map(cap, evs.take(k)).dom().finite(),
        run_map(cap, evs.take(k)).dom().len() + count_exits(evs.take(k)) == count_enters(
            evs.take(k),
        ),
        forall|t: u64|
            run_map(cap, evs.take(k)).contains_key(t) <==> (entered_before(evs, k, t)
                && !exited_before(evs, k, t)),
        forall|t: u64|
            run_map(cap, evs.take(k)).contains_key(t) ==> run_map(cap, evs.take(k))[t] == enter_ts(
                evs,
                t,
            ),
        run_records(cap, evs.take(k)).len() == count_exits(evs.take(k)),
        forall|j: int|
            0 <= j < k && is_exit(evs[j]) ==> run_records(cap, evs.take(k))[count_exits(
                evs.take(j),
            ) as int] == owed_record(evs, j),
    decreases k,
{
    broadcast use vstd::set::group_set_axioms;

    if k == 0 {
        assert(evs.take(0) =~= Seq::<ProbeEvent>::empty());
        assert(run_map(cap, evs.take(0)) =~= Map::<u64, u64>::empty());
        assert(run_map(cap, evs.take(0)).dom() =~= Set::<u64>::empty());
    } else {
        lemma_session_invariant(cap, evs, k - 1);
        let prefix = evs.take(k - 1);
        let full = evs.take(k);
        let ev = evs[k - 1];
        let m = run_map(cap, prefix);
        assert(full.drop_last() =~= prefix);
        assert(full.last() == ev);
        assert(run_map(cap, full) == step_map(m, cap, ev));
        assert(count_enters(full) == count_enters(prefix) + if is_enter(ev) {
            1nat
        } else {
            0nat
        });
        assert(count_exits(full) == count_exits(prefix) + if is_exit(ev) {
            1nat
        } else {
            0nat
        });
        match ev {
            ProbeEvent::Enter { task, ts } => {
                // The task cannot already be pending or already exited:
                // either would need a second entry event for it.
                if entered_before(evs, k - 1, task) {
                    let i = choose|i: int|
                        0 <= i < k - 1 && is_enter(#[trigger] evs[i]) && task_of(evs[i]) == task;
                    assert(is_enter(evs[i]) && is_enter(evs[k - 1]) && task_of(evs[i]) == task_of(
                        evs[k - 1],
                    ));
                    assert(false);
                }
                if exited_before(evs, k - 1, task) {
                    let j = choose|j: int|
                        0 <= j < k - 1 && is_exit(#[trigger] evs[j]) && task_of(evs[j]) == task;
                    assert(exists|i: int|
                        0 <= i < j && is_enter(#[trigger] evs[i]) && task_of(evs[i]) == task_of(
                            evs[j],
                        ));
                    let i = choose|i: int|
                        0 <= i < j && is_enter(#[trigger] evs[i]) && task_of(evs[i]) == task_of(
                            evs[j],
                        );
                    assert(entered_before(evs, k - 1, task));
                    assert(false);
                }
                assert(!m.contains_key(task));
                // Room is left: the pending map holds at most the
                // entries seen before this one.
                lemma_count_enters_le(evs, k, evs.len() as int);
                assert(evs.take(evs.len() as int) =~= evs);
                assert(count_enters(prefix) + 1 == count_enters(full) <= count_enters(evs));
                assert(m.dom().len() < cap);
                assert(run_map(cap, full) == m.insert(task, ts));
                assert(run_map(cap, full).dom() =~= m.dom().insert(task));
                // The new entry's recorded time is its own.
                assert(is_enter(evs[k - 1]) && task_of(evs[k - 1]) == task);
                assert(entered_before(evs, evs.len() as int, task));
                let i0 = enter_index(evs, task);
                assert(0 <= i0 < evs.len() && is_enter(evs[i0]) && task_of(evs[i0]) == task);
                assert(i0 == k - 1) by {
                    if i0 < k - 1 {
                        assert(task_of(evs[i0]) != task_of(evs[k - 1]));
                    } else if i0 > k - 1 {
                        assert(task_of(evs[k - 1]) != task_of(evs[i0]));
                    }
                }
                assert(enter_ts(evs, task) == ts);
                // Membership: the new task is pending; all others as
                // before.
                assert forall|t: u64|
                    run_map(cap, full).contains_key(t) <==> (entered_before(evs, k, t)
                        && !exited_before(evs, k, t)) by {
                    if t == task {
                        assert(run_map(cap, full).contains_key(t));
                        assert(entered_before(evs, k, t));
                        if exited_before(evs, k, t) {
                            let j = choose|j: int|
                                0 <= j < k && is_exit(#[trigger] evs[j]) && task_of(evs[j]) == t;
                            assert(j != k - 1);
                            assert(exited_before(evs, k - 1, t));
                            assert(false);
                        }
                    } else {
                        assert(run_map(cap, full).contains_key(t) == m.contains_key(t));
                        assert(entered_before(evs, k, t) == entered_before(evs, k - 1, t)) by {
                            if entered_before(evs, k, t) {
                                let i = choose|i: int|
                                    0 <= i < k && is_enter(#[trigger] evs[i]) && task_of(evs[i])
                                        == t;
                                assert(i != k - 1);
                                assert(entered_before(evs, k - 1, t));
                            }
                            if entered_before(evs, k - 1, t) {
                                let i = choose|i: int|
                                    0 <= i < k - 1 && is_enter(#[trigger] evs[i]) && task_of(
                                        evs[i],
                                    ) == t;
                                assert(entered_before(evs, k, t));
                            }
                        }
                        assert(exited_before(evs, k, t) == exited_before(evs, k - 1, t)) by {
                            if exited_before(evs, k, t) {
                                let j = choose|j: int|
                                    0 <= j < k && is_exit(#[trigger] evs[j]) && task_of(evs[j])
                                        == t;
                                assert(j != k - 1);
                                assert(exited_before(evs, k - 1, t));
                            }
                            if exited_before(evs, k - 1, t) {
                                let j = choose|j: int|
                                    0 <= j < k - 1 && is_exit(#[trigger] evs[j]) && task_of(
                                        evs[j],
                                    ) == t;
                                assert(exited_before(evs, k, t));
                            }
                        }
                    }
                }
                // No record is emitted by an entry event.
                assert(run_records(cap, full) =~= run_records(cap, prefix));
                assert forall|j: int| 0 <= j < k && is_exit(evs[j]) implies run_records(
                    cap,
                    full,
                )[count_exits(evs.take(j)) as int] == owed_record(evs, j) by {
                    assert(j != k - 1);
                }
            },
            ProbeEvent::Exit { task, ts } => {
                // The matching entry lies in the prefix, and no
                // earlier exit consumed it.
                assert(is_exit(evs[k - 1]) && task_of(evs[k - 1]) == task);
                assert(exists|i: int|
                    0 <= i < k - 1 && is_enter(#[trigger] evs[i]) && task_of(evs[i]) == task_of(
                        evs[k - 1],
                    ));
                assert(entered_before(evs, k - 1, task));
                if exited_before(evs, k - 1, task) {
                    let j = choose|j: int|
                        0 <= j < k - 1 && is_exit(#[trigger] evs[j]) && task_of(evs[j]) == task;
                    assert(task_of(evs[j]) != task_of(evs[k - 1]));
                    assert(false);
                }
                assert(m.contains_key(task));
                assert(m[task] == enter_ts(evs, task));
                assert(run_map(cap, full) == m.remove(task));
                assert(run_map(cap, full).dom() =~= m.dom().remove(task));
                // The emitted record is the owed one: the entry lies
                // before this exit, so the clock orders the two.
                let i0 = enter_index(evs, task);
                assert(0 <= i0 < evs.len() && is_enter(evs[i0]) && task_of(evs[i0]) == task);
                assert(i0 != k - 1);
                assert(i0 < k - 1) by {
                    if i0 > k - 1 {
                        let iw = choose|i: int|
                            0 <= i < k - 1 && is_enter(#[trigger] evs[i]) && task_of(evs[i])
                                == task;
                        assert(task_of(evs[iw]) != task_of(evs[i0]));
                    }
                }
                assert(ts_of(evs[i0]) <= ts_of(evs[k - 1]));
                assert(enter_ts(evs, task) <= ts);
                let rec = owed_record(evs, k - 1);
                assert(step_emit(m, ev) == Some(rec));
                assert(run_records(cap, full) =~= run_records(cap, prefix).push(rec));
                // Membership after consuming the entry.
                assert forall|t: u64|
                    run_map(cap, full).contains_key(t) <==> (entered_before(evs, k, t)
                        && !exited_before(evs, k, t)) by {
                    if t == task {
                        assert(!run_map(cap, full).contains_key(t));
                        assert(exited_before(evs, k, t));
                    } else {
                        assert(run_map(cap, full).contains_key(t) == m.contains_key(t));
                        assert(entered_before(evs, k, t) == entered_before(evs, k - 1, t)) by {
                            if entered_before(evs, k, t) {
                                let i = choose|i: int|
                                    0 <= i < k && is_enter(#[trigger] evs[i]) && task_of(evs[i])
                                        == t;
                                assert(i != k - 1);
                                assert(entered_before(evs, k - 1, t));
                            }
                            if entered_before(evs, k - 1, t) {
                                let i = choose|i: int|
                                    0 <= i < k - 1 && is_enter(#[trigger] evs[i]) && task_of(
                                        evs[i],
                                    ) == t;
                                assert(entered_before(evs, k, t));
                            }
                        }
                        assert(exited_before(evs, k, t) == exited_before(evs, k - 1, t)) by {
                            if exited_before(evs, k, t) {
                                let j = choose|j: int|
                                    0 <= j < k && is_exit(#[trigger] evs[j]) && task_of(evs[j])
                                        == t;
                                assert(j != k - 1);
                                assert(exited_before(evs, k - 1, t));
                            }
                            if exited_before(evs, k - 1, t) {
                                let j = choose|j: int|
                                    0 <= j < k - 1 && is_exit(#[trigger] evs[j]) && task_of(
                                        evs[j],
                                    ) == t;
                                assert(exited_before(evs, k, t));
                            }
                        }
                    }
                }
                // One more record, exactly at the next emission slot.
                assert(run_records(cap, full).len() == count_exits(full));
                assert forall|j: int| 0 <= j < k && is_exit(evs[j]) implies run_records(
                    cap,
                    full,
                )[count_exits(evs.take(j)) as int] == owed_record(evs, j) by {
                    if j == k - 1 {
                        assert(count_exits(evs.take(j)) == run_records(cap, prefix).len());
                        assert(run_records(cap, full)[count_exits(evs.take(j)) as int] == rec);
                    } else {
                        lemma_count_exits_le(evs, j + 1, k - 1);
                        assert(evs.take(j + 1).drop_last() =~= evs.take(j));
                        assert(count_exits(evs.take(j + 1)) == count_exits(evs.take(j)) + 1);
                        assert(count_exits(evs.take(j)) < count_exits(prefix));
                        assert(run_records(cap, full)[count_exits(evs.take(j)) as int]
                            == run_records(cap, prefix)[count_exits(evs.take(j)) as int]);
                    }
                }
            },
        }
    }
}

/// The session law. In any paired trace — entry/exit pairs with
/// pairwise-distinct tasks under a monotonic clock — run within the
/// store's capacity, every exit event yields exactly one duration
/// record, in exit order, equal to its own exit time minus its own
/// task's entry time; no other record is emitted. Durations never
/// cross between tasks, and when every entry is matched by an exit
/// the trace of N pairs emits exactly N records.
pub proof fn lemma_paired_trace_records(cap: nat, evs: Seq<ProbeEvent>)
    requires
        paired_trace(evs),
        count_enters(evs) <= cap,
    ensures
        run_records(cap, evs).len() == count_exits(evs),
        forall|j: int|
            0 <= j < evs.len() && is_exit(evs[j]) ==> run_records(cap, evs)[count_exits(
                evs.take(j),
            ) as int] == owed_record(evs, j),
{
    lemma_session_invariant(cap, evs, evs.len() as int);
    assert(evs.take(evs.len() as int) =~= evs);
}

/// Every entry event has a later exit event of the same task.
pub open spec fn enters_matched(evs: Seq<ProbeEvent>) -> bool {
    forall|i: int|
        0 <= i < evs.len() && is_enter(evs[i]) ==> exists|j: int|
            i < j < evs.len() && is_exit(#[trigger] evs[j]) && task_of(evs[j]) == task_of(evs[i])
}

/// The counting half of the session law. A complete paired trace —
/// one of N whole entry/exit pairs — emits exactly N duration
/// records, and consumes every pending entry: the session ends with
/// an empty store.
pub proof fn lemma_complete_trace_records(cap: nat, evs: Seq<ProbeEvent>)
    requires
        paired_trace(evs),
        enters_matched(evs),
        count_enters(evs) <= cap,
    ensures
        count_exits(evs) == count_enters(evs),
        run_records(cap, evs).len() == count_enters(evs),
        run_map(cap, evs) =~= Map::<u64, u64>::empty(),
{
    broadcast use vstd::set::group_set_axioms;

    let n = evs.len() as int;
    lemma_session_invariant(cap, evs, n);
    assert(evs.take(n) =~= evs);
    let m = run_map(cap, evs);
    assert forall|t: u64| !m.contains_key(t) by {
        if m.contains_key(t) {
            assert(entered_before(evs, n, t) && !exited_before(evs, n, t));
            let i = choose|i: int| 0 <= i < n && is_enter(#[trigger] evs[i]) && task_of(evs[i]) == t;
            assert(exists|j: int|
                i < j < evs.len() && is_exit(#[trigger] evs[j]) && task_of(evs[j]) == task_of(
                    evs[i],
                ));
            let j = choose|j: int|
                i < j < evs.len() && is_exit(#[trigger] evs[j]) && task_of(evs[j]) == task_of(
                    evs[i],
                );
            assert(exited_before(evs, n, t));
        }
    }
    assert(m.dom() =~= Set::<u64>::empty());
    assert(m =~= Map::<u64, u64>::empty());
}

} // verus!
