//! Tests of the correlation store and the probe handler logic.

use ai_forensics::probes::{
    handle_entry, handle_exit, handle_malloc_return, handle_plain_event, DurationRecord,
    STATUS_DROP, STATUS_OK,
};
use ai_forensics::store::CorrelationStore;

#[test]
fn entry_exit_pair_yields_one_duration() {
    let mut store = CorrelationStore::new(1024);
    assert_eq!(handle_entry(&mut store, 42, 1_000), STATUS_OK);
    let (status, rec) = handle_exit(&mut store, 42, 4_500);
    assert_eq!(status, STATUS_OK);
    assert_eq!(
        rec,
        Some(DurationRecord {
            task: 42,
            duration_ns: 3_500
        })
    );
    assert_eq!(store.len(), 0);
}

#[test]
fn n_distinct_pairs_yield_exactly_n_records() {
    let mut store = CorrelationStore::new(1024);
    let pairs: Vec<(u64, u64, u64)> = vec![
        (1, 100, 150),
        (2, 200, 230),
        (3, 300, 301),
        (4, 400, 900),
        (5, 500, 505),
    ];
    let mut records = Vec::new();
    for (task, enter_ts, _) in &pairs {
        assert_eq!(handle_entry(&mut store, *task, *enter_ts), STATUS_OK);
    }
    for (task, _, exit_ts) in &pairs {
        let (status, rec) = handle_exit(&mut store, *task, *exit_ts);
        assert_eq!(status, STATUS_OK);
        records.push(rec.unwrap());
    }
    assert_eq!(records.len(), pairs.len());
    for ((task, enter_ts, exit_ts), rec) in pairs.iter().zip(records.iter()) {
        assert_eq!(rec.task, *task);
        assert_eq!(rec.duration_ns, exit_ts - enter_ts);
    }
}

#[test]
fn unmatched_exit_is_dropped_softly() {
    let mut store = CorrelationStore::new(1024);
    let (status, rec) = handle_exit(&mut store, 99, 5_000);
    assert_eq!(status, STATUS_DROP);
    assert_eq!(rec, None);
    assert_eq!(store.len(), 0);
}

#[test]
fn capacity_insert_fails_without_evicting() {
    let mut store = CorrelationStore::new(2);
    assert!(store.insert(1, 10));
    assert!(store.insert(2, 20));
    assert_eq!(store.len(), 2);
    assert!(!store.insert(3, 30));
    assert_eq!(store.len(), 2);
    assert_eq!(store.lookup(1), Some(10));
    assert_eq!(store.lookup(2), Some(20));
    assert_eq!(store.lookup(3), None);
    assert_eq!(store.capacity(), 2);
}

#[test]
fn insert_at_capacity_still_overwrites_pending_task() {
    let mut store = CorrelationStore::new(2);
    assert!(store.insert(1, 10));
    assert!(store.insert(2, 20));
    assert!(store.insert(1, 15));
    assert_eq!(store.len(), 2);
    assert_eq!(store.lookup(1), Some(15));
}

#[test]
fn handler_drops_entry_when_store_full() {
    let mut store = CorrelationStore::new(1);
    assert_eq!(handle_entry(&mut store, 1, 10), STATUS_OK);
    assert_eq!(handle_entry(&mut store, 2, 20), STATUS_DROP);
    assert_eq!(store.lookup(1), Some(10));
    assert_eq!(store.lookup(2), None);
}

#[test]
fn remove_absent_task_fails_and_changes_nothing() {
    let mut store = CorrelationStore::new(8);
    assert!(store.insert(5, 50));
    assert_eq!(store.remove(6), None);
    assert_eq!(store.len(), 1);
    assert_eq!(store.remove(5), Some(50));
    assert_eq!(store.len(), 0);
}

#[test]
fn interleaved_tasks_never_cross_contaminate() {
    let mut store = CorrelationStore::new(1024);
    // Task A enters, then task B; B exits first, then A.
    assert_eq!(handle_entry(&mut store, 100, 1_000), STATUS_OK);
    assert_eq!(handle_entry(&mut store, 200, 2_000), STATUS_OK);
    let (status_b, rec_b) = handle_exit(&mut store, 200, 2_500);
    assert_eq!(status_b, STATUS_OK);
    assert_eq!(
        rec_b,
        Some(DurationRecord {
            task: 200,
            duration_ns: 500
        })
    );
    let (status_a, rec_a) = handle_exit(&mut store, 100, 9_000);
    assert_eq!(status_a, STATUS_OK);
    assert_eq!(
        rec_a,
        Some(DurationRecord {
            task: 100,
            duration_ns: 8_000
        })
    );
}

#[test]
fn second_entry_overwrites_earlier_start_time() {
    let mut store = CorrelationStore::new(1024);
    assert_eq!(handle_entry(&mut store, 7, 1_000), STATUS_OK);
    assert_eq!(handle_entry(&mut store, 7, 3_000), STATUS_OK);
    let (status, rec) = handle_exit(&mut store, 7, 3_600);
    assert_eq!(status, STATUS_OK);
    assert_eq!(
        rec,
        Some(DurationRecord {
            task: 7,
            duration_ns: 600
        })
    );
}

#[test]
fn malloc_return_is_reported_or_dropped() {
    let (status, msg) = handle_malloc_return(Some(4096));
    assert_eq!(status, STATUS_OK);
    let msg = msg.unwrap();
    assert_eq!(msg.level, "info");
    assert_eq!(msg.message, "malloc returned: 4096");

    let (status, msg) = handle_malloc_return(None);
    assert_eq!(status, STATUS_DROP);
    assert!(msg.is_none());
}

#[test]
fn plain_event_emits_invocation_record() {
    let (status, msg) = handle_plain_event("sys_enter_mmap");
    assert_eq!(status, STATUS_OK);
    assert_eq!(msg.level, "info");
    assert_eq!(msg.message, "sys_enter_mmap invoked");
}

#[test]
fn arbitrary_interleaving_of_pairs_emits_one_record_each() {
    // Entries and exits of four tasks, interleaved; every exit uses
    // its own task's start time, and four records come out in exit
    // order.
    let mut store = CorrelationStore::new(4);
    let mut records = Vec::new();
    let mut push = |r: Option<DurationRecord>| {
        if let Some(rec) = r {
            records.push(rec);
        }
    };
    assert_eq!(handle_entry(&mut store, 10, 100), STATUS_OK);
    assert_eq!(handle_entry(&mut store, 20, 110), STATUS_OK);
    let (s, r) = handle_exit(&mut store, 20, 130);
    assert_eq!(s, STATUS_OK);
    push(r);
    assert_eq!(handle_entry(&mut store, 30, 140), STATUS_OK);
    assert_eq!(handle_entry(&mut store, 40, 150), STATUS_OK);
    let (s, r) = handle_exit(&mut store, 10, 160);
    assert_eq!(s, STATUS_OK);
    push(r);
    let (s, r) = handle_exit(&mut store, 40, 200);
    assert_eq!(s, STATUS_OK);
    push(r);
    let (s, r) = handle_exit(&mut store, 30, 240);
    assert_eq!(s, STATUS_OK);
    push(r);
    assert_eq!(
        records,
        vec![
            DurationRecord {
                task: 20,
                duration_ns: 20
            },
            DurationRecord {
                task: 10,
                duration_ns: 60
            },
            DurationRecord {
                task: 40,
                duration_ns: 50
            },
            DurationRecord {
                task: 30,
                duration_ns: 100
            },
        ]
    );
    assert_eq!(store.len(), 0);
}
