//! Tests of the distributor, the wire encoding, and the relay's
//! startup decision.

use ai_forensics::distributor::{
    subscriber_next, Distributor, SubscriberEvent, SubscriberPhase,
};
use ai_forensics::probes::duration_record_message;
use ai_forensics::probes::DurationRecord;
use ai_forensics::relay::{attach_error_message, attach_targets, first_failure, startup_failure, HookKind};
use ai_forensics::text::{malloc_message, u64_to_string};
use ai_forensics::wire::{encode_log_message, LogLevel, LogMessage};

fn record(level: LogLevel, message: &str) -> LogMessage {
    LogMessage::new(level, message.to_string())
}

fn serde_json_wire(level: &str, message: &str) -> Vec<u8> {
    let mut obj = serde_json::Map::new();
    obj.insert(
        "level".to_string(),
        serde_json::Value::String(level.to_string()),
    );
    obj.insert(
        "message".to_string(),
        serde_json::Value::String(message.to_string()),
    );
    serde_json::to_vec(&serde_json::Value::Object(obj)).unwrap()
}

#[test]
fn wire_form_is_the_expected_json_object() {
    let bytes = encode_log_message(&record(LogLevel::Info, "sys_enter_mmap invoked"));
    assert_eq!(
        String::from_utf8(bytes).unwrap(),
        "{\"level\":\"info\",\"message\":\"sys_enter_mmap invoked\"}"
    );
}

#[test]
fn wire_form_matches_the_reference_serializer() {
    let cases = [
        ("info", "plain text"),
        ("warn", ""),
        ("error", "quote \" backslash \\ done"),
        ("info", "newline \n tab \t return \r"),
        ("info", "control \u{1} \u{8} \u{c} \u{1f} end"),
        ("info", "unicode caf\u{e9} \u{2603} ok"),
        ("error", "futex call duration for pid 42 was 3500 ns"),
    ];
    for (level, message) in cases {
        let lvl = match level {
            "info" => LogLevel::Info,
            "warn" => LogLevel::Warn,
            _ => LogLevel::Error,
        };
        let ours = encode_log_message(&record(lvl, message));
        assert_eq!(ours, serde_json_wire(level, message));
    }
}

#[test]
fn duration_record_renders_and_encodes() {
    let rec = DurationRecord {
        task: 7,
        duration_ns: 3_500,
    };
    let msg = duration_record_message(&rec);
    assert_eq!(msg.level, "info");
    assert_eq!(msg.message, "futex call duration for pid 7 was 3500 ns");
    let bytes = encode_log_message(&msg);
    assert_eq!(
        String::from_utf8(bytes).unwrap(),
        "{\"level\":\"info\",\"message\":\"futex call duration for pid 7 was 3500 ns\"}"
    );
}

#[test]
fn level_names_are_the_wire_names() {
    assert_eq!(LogLevel::Info.name(), "info");
    assert_eq!(LogLevel::Warn.name(), "warn");
    assert_eq!(LogLevel::Error.name(), "error");
}

#[test]
fn broadcast_reaches_all_registered_subscribers() {
    let mut d = Distributor::new();
    d.register_subscriber(1);
    d.register_subscriber(2);
    d.register_subscriber(3);
    let plan = d.broadcast_plan();
    assert_eq!(plan, vec![1, 2, 3]);
}

#[test]
fn duplicate_registration_is_ignored() {
    let mut d = Distributor::new();
    d.register_subscriber(5);
    d.register_subscriber(5);
    assert_eq!(d.broadcast_plan(), vec![5]);
}

#[test]
fn failed_subscriber_is_removed_others_kept() {
    let mut d = Distributor::new();
    d.register_subscriber(1);
    d.register_subscriber(2);
    d.register_subscriber(3);
    // Subscriber 2 disconnects mid-broadcast; 1 and 3 stay.
    d.apply_send_outcomes(&vec![true, false, true]);
    assert_eq!(d.broadcast_plan(), vec![1, 3]);
}

#[test]
fn late_subscriber_misses_earlier_records_but_gets_later_ones() {
    let mut d = Distributor::new();
    d.register_subscriber(1);
    // One record is broadcast to subscriber 1 alone.
    let early_plan = d.broadcast_plan();
    assert_eq!(early_plan, vec![1]);
    d.apply_send_outcomes(&vec![true]);
    // A subscriber admitted afterwards is only in later plans.
    d.register_subscriber(2);
    let later_plan = d.broadcast_plan();
    assert_eq!(later_plan, vec![1, 2]);
}

#[test]
fn disconnect_during_broadcast_still_serves_remaining_client() {
    // A client receives three records verbatim, then disconnects while
    // a fourth is broadcast; the second client still receives it.
    let mut d = Distributor::new();
    d.register_subscriber(1);
    d.register_subscriber(2);
    let records = [
        record(LogLevel::Info, "sys_enter_read invoked"),
        record(LogLevel::Info, "sys_exit_read invoked"),
        record(LogLevel::Info, "futex call duration for pid 9 was 120 ns"),
    ];
    let mut client1: Vec<String> = Vec::new();
    let mut client2: Vec<String> = Vec::new();
    for rec in &records {
        let plan = d.broadcast_plan();
        let mut outcomes = Vec::new();
        for id in &plan {
            let wire = String::from_utf8(encode_log_message(rec)).unwrap();
            match *id {
                1 => client1.push(wire),
                2 => client2.push(wire),
                _ => unreachable!(),
            }
            outcomes.push(true);
        }
        d.apply_send_outcomes(&outcomes);
    }
    assert_eq!(client1, client2);
    assert_eq!(
        client1[2],
        "{\"level\":\"info\",\"message\":\"futex call duration for pid 9 was 120 ns\"}"
    );
    // Client 1 drops during the fourth broadcast.
    let fourth = record(LogLevel::Warn, "sys_enter_brk invoked");
    let plan = d.broadcast_plan();
    assert_eq!(plan, vec![1, 2]);
    let mut outcomes = Vec::new();
    for id in &plan {
        let wire = String::from_utf8(encode_log_message(&fourth)).unwrap();
        match *id {
            1 => outcomes.push(false),
            2 => {
                client2.push(wire);
                outcomes.push(true);
            }
            _ => unreachable!(),
        }
    }
    d.apply_send_outcomes(&outcomes);
    assert_eq!(
        client2[3],
        "{\"level\":\"warn\",\"message\":\"sys_enter_brk invoked\"}"
    );
    assert_eq!(d.broadcast_plan(), vec![2]);
}

#[test]
fn subscriber_lifecycle_reaches_active_and_closed_is_terminal() {
    let p = SubscriberPhase::Connecting;
    let p = subscriber_next(p, SubscriberEvent::RegistrationAccepted);
    assert_eq!(p, SubscriberPhase::Registered);
    let p = subscriber_next(p, SubscriberEvent::ForwardingStarted);
    assert_eq!(p, SubscriberPhase::Active);
    let p = subscriber_next(p, SubscriberEvent::SendFailed);
    assert_eq!(p, SubscriberPhase::Closed);
    for ev in [
        SubscriberEvent::RegistrationAccepted,
        SubscriberEvent::RegistrationFailed,
        SubscriberEvent::ForwardingStarted,
        SubscriberEvent::SendFailed,
        SubscriberEvent::ConnectionClosed,
    ] {
        assert_eq!(subscriber_next(SubscriberPhase::Closed, ev), SubscriberPhase::Closed);
    }
}

#[test]
fn registration_failure_aborts_the_connection() {
    let p = subscriber_next(SubscriberPhase::Connecting, SubscriberEvent::RegistrationFailed);
    assert_eq!(p, SubscriberPhase::Closed);
}

#[test]
fn attach_table_lists_the_twelve_tracepoints() {
    let targets = attach_targets();
    assert_eq!(targets.len(), 12);
    let names: Vec<&str> = targets.iter().map(|t| t.name.as_str()).collect();
    assert_eq!(
        names,
        vec![
            "sys_enter_futex",
            "sys_exit_futex",
            "sys_enter_mmap",
            "sys_exit_mmap",
            "sys_enter_read",
            "sys_exit_read",
            "sys_enter_close",
            "sys_exit_close",
            "sys_enter_munmap",
            "sys_exit_munmap",
            "sys_enter_brk",
            "sys_exit_brk",
        ]
    );
    assert!(targets[0].uses_store && targets[1].uses_store);
    assert!(targets[2..].iter().all(|t| !t.uses_store));
    assert_eq!(targets[0].kind, HookKind::Entry);
    assert_eq!(targets[1].kind, HookKind::Exit);
}

#[test]
fn one_failed_target_aborts_startup_naming_it() {
    let targets = attach_targets();
    let mut attached = vec![true; 12];
    attached[5] = false;
    let report = startup_failure(&targets, &attached);
    assert_eq!(report, Some("failed to attach sys_exit_read".to_string()));
}

#[test]
fn fully_attached_run_starts() {
    let targets = attach_targets();
    let attached = vec![true; 12];
    assert_eq!(startup_failure(&targets, &attached), None);
}

#[test]
fn first_failure_finds_the_earliest() {
    assert_eq!(first_failure(&vec![true, false, false, true]), Some(1));
    assert_eq!(first_failure(&vec![true, true]), None);
    assert_eq!(first_failure(&vec![]), None);
    assert_eq!(
        attach_error_message("sys_enter_futex"),
        "failed to attach sys_enter_futex"
    );
}

#[test]
fn decimal_rendering_is_exact() {
    assert_eq!(u64_to_string(0), "0");
    assert_eq!(u64_to_string(7), "7");
    assert_eq!(u64_to_string(10), "10");
    assert_eq!(u64_to_string(1_234_567_890), "1234567890");
    assert_eq!(u64_to_string(u64::MAX), "18446744073709551615");
}

#[test]
fn malloc_messages_handle_signs() {
    assert_eq!(malloc_message(0), "malloc returned: 0");
    assert_eq!(malloc_message(-5), "malloc returned: -5");
    assert_eq!(malloc_message(i32::MIN), "malloc returned: -2147483648");
    assert_eq!(malloc_message(i32::MAX), "malloc returned: 2147483647");
}
