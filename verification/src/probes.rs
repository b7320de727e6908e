//! The probe handler logic: what an entry-side, exit-side, or
//! return-side hook decides and emits, given the values the kernel
//! hands it. Handlers never panic; every failure is event-scoped and
//! surfaces only as a soft status code for the hosting runtime.

use vstd::prelude::*;
use crate::store::CorrelationStore;
use crate::text;
use crate::wire::LogLevel;
use crate::wire::LogMessage;

verus! {

/// Status a handler returns on success.
pub const STATUS_OK: u32 = 0;

/// Status a handler returns when it drops the event: the store was
/// full, the exit had no matching entry, or the hooked return value
/// could not be read. Tracing continues unaffected.
pub const STATUS_DROP: u32 = 1;

/// One computed call duration: the task that made the call and the
/// elapsed nanoseconds between its entry and exit events.
#[derive(Clone, Copy, PartialEq, Eq, Structural, Debug)]
pub struct DurationRecord {
    pub task: u64,
    pub duration_ns: u64,
}

/// How an entry event changes the pending map: overwrite if the task
/// is already pending, insert if there is room, otherwise leave the
/// map unchanged (the event is dropped).
pub open spec fn entry_step(m: Map<u64, u64>, cap: nat, task: u64, ts: u64) -> Map<u64, u64> {
    if m.contains_key(task) || m.dom().len() < cap {
        m.insert(task, ts)
    } else {
        m
    }
}

/// How an exit event changes the pending map: consume the matching
/// entry if there is one, otherwise leave the map unchanged.
pub open spec fn exit_step(m: Map<u64, u64>, task: u64) -> Map<u64, u64> {
    if m.contains_key(task) {
        m.remove(task)
    } else {
        m
    }
}

/// What an exit event emits: exactly one duration record when a
/// matching entry is pending, and nothing otherwise.
pub open spec fn exit_emit(m: Map<u64, u64>, task: u64, exit_ts: u64) -> Option<DurationRecord> {
    if m.contains_key(task) {
        Some((DurationRecord { task, duration_ns: (exit_ts - m[task]) as u64 }))
    } else {
        None
    }
}

/// Entry-side handler: records `ts` as the start time of the call the
/// task is entering. Succeeds exactly when the task is already pending
/// (overwriting the earlier start time) or the store has room; at
/// capacity the event is dropped and nothing is evicted.
pub fn handle_entry(store: &mut CorrelationStore, task: u64, ts: u64) -> (status: u32)
    requires
        old(store).inv(),
    ensures
        final(store).inv(),
        final(store).spec_capacity() == old(store).spec_capacity(),
        final(store)@ == entry_step(
            old(store)@,
            old(store).spec_capacity() as nat,
            task,
            ts,
        ),
        status == STATUS_OK || status == STATUS_DROP,
        (status == STATUS_OK) == (old(store)@.contains_key(task) || old(store)@.len() < old(
            store,
        ).spec_capacity()),
{
    if store.insert(task, ts) {
        STATUS_OK
    } else {
        STATUS_DROP
    }
}

/// Exit-side handler: consumes the pending entry of `task` and, on a
/// hit, computes the elapsed time and emits exactly one duration
/// record. An exit with no matching entry emits nothing and returns
/// the drop status, never a fault.
///
/// Timestamps come from one monotonic counter, so a pending start time
/// is never later than the exit time.
pub fn handle_exit(store: &mut CorrelationStore, task: u64, exit_ts: u64) -> (r: (
    u32,
    Option<DurationRecord>,
))
    requires
        old(store).inv(),
        old(store)@.contains_key(task) ==> old(store)@[task] <= exit_ts,
    ensures
        final(store).inv(),
        final(store).spec_capacity() == old(store).spec_capacity(),
        final(store)@ == exit_step(old(store)@, task),
        r.1 == exit_emit(old(store)@, task, exit_ts),
        (r.0 == STATUS_OK) == old(store)@.contains_key(task),
        r.0 == STATUS_OK || r.0 == STATUS_DROP,
{
    match store.remove(task) {
        Some(entry_ts) => {
            let duration_ns = exit_ts - entry_ts;
            (STATUS_OK, Some(DurationRecord { task, duration_ns }))
        },
        None => (STATUS_DROP, None),
    }
}

/// Renders the record an exit-side handler emits for a computed
/// duration.
pub fn duration_record_message(rec: &DurationRecord) -> (r: LogMessage)
    ensures
        r.level@ == "info"@,
        r.message@ == text::duration_text(rec.task, rec.duration_ns),
{
    LogMessage::new(LogLevel::Info, text::duration_message(rec.task, rec.duration_ns))
}

/// Return-side handler on the allocation function: reports the hooked
/// return value when it could be read, and drops the event otherwise.
pub fn handle_malloc_return(retval: Option<i32>) -> (r: (u32, Option<LogMessage>))
    ensures
        r.0 == STATUS_OK || r.0 == STATUS_DROP,
        (r.0 == STATUS_OK) == retval.is_some(),
        retval.is_some() ==> r.1.is_some() && r.1->0.level@ == "info"@ && r.1->0.message@
            == text::malloc_text(retval->0),
        retval.is_none() ==> r.1.is_none(),
{
    match retval {
        Some(v) => (STATUS_OK, Some(LogMessage::new(LogLevel::Info, text::malloc_message(v)))),
        None => (STATUS_DROP, None),
    }
}

/// Handler for a plain (uncorrelated) event: emits one record noting
/// that the event fired, and always succeeds.
pub fn handle_plain_event(name: &str) -> (r: (u32, LogMessage))
    ensures
        r.0 == STATUS_OK,
        r.1.level@ == "info"@,
        r.1.message@ == text::invoked_text(name@),
{
    (STATUS_OK, LogMessage::new(LogLevel::Info, text::invoked_message(name)))
}

} // verus!
