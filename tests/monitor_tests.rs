use rustping::email::{EmailConfig, EmailService};
use rustping::journal::{LogJournal, Timestamp};
use rustping::models::{Device, SensorType};
use rustping::monitor::{after_http, after_ping, http_probe_due, settle_cycle, worth_logging};
use rustping::registry::reload_devices;
use rustping::sensors::{ping_attempt_succeeded, ping_reply_seen, ping_verdict};
use rustping::tracker::{StatusTracker, Transition};

fn device(name: &str, http: bool) -> Device {
    Device {
        name: name.to_string(),
        ip: format!("10.0.0.{}", name.len()),
        category: "Core".to_string(),
        sensors: if http { vec![SensorType::Ping, SensorType::Http] } else { vec![SensorType::Ping] },
        http_path: if http { Some("http://10.0.0.1/".to_string()) } else { None },
        ping_status: None,
        http_status: None,
        bandwidth_usage: None,
    }
}

fn now() -> Timestamp {
    Timestamp { year: 2024, month: 6, day: 1, hour: 12, minute: 0, second: 0 }
}

#[test]
fn ping_then_http() {
    let mut t = StatusTracker::new(1);
    let mut d = device("Web", true);
    assert_eq!(after_ping(&mut t, &mut d, true, 5), Transition::BecameUp);
    assert_eq!(d.ping_status, Some(true));
    assert!(http_probe_due(&d));
    assert!(after_http(&mut d, Some(true), Some(4200)));
    assert_eq!(d.http_status, Some(true));
    assert_eq!(d.bandwidth_usage, Some(4200));
    assert_eq!(after_ping(&mut t, &mut d, false, 10), Transition::BecameDown);
    assert!(!http_probe_due(&d));
    assert!(after_http(&mut d, None, None));
    assert_eq!(d.http_status, Some(false));
    assert_eq!(d.bandwidth_usage, None);
}

#[test]
fn no_http_sensor_no_probe() {
    let mut d = device("Sw", false);
    d.ping_status = Some(true);
    assert!(!http_probe_due(&d));
    assert!(!after_http(&mut d, None, None));
}

#[test]
fn cycle_after_removing_a_device() {
    let mut t = StatusTracker::new(1);
    let mut registry = vec![device("X", false), device("Router1", false)];
    for d in registry.iter_mut() {
        after_ping(&mut t, d, false, 5);
    }
    let keep = vec![device("Router1", false)];
    reload_devices(&mut registry, keep);
    let mut journal = LogJournal::new();
    let mut email = EmailService::new(EmailConfig::default(), 0);
    let (text, due) = settle_cycle(&mut journal, &mut email, &t, &registry, &now(), 1900);
    assert_eq!(
        text,
        "// 2024-06-01\n2024-06-01 12:00:00 - Router1 (10.0.0.7): Ping: FAIL, HTTP: N/A, Bandwidth: N/A\n"
    );
    assert!(!text.contains("X ("));
    assert!(due);
    let batch = email.build_batch();
    assert_eq!(batch.rows.len(), 1);
    assert_eq!(batch.rows[0].name, "Router1");
    assert!(t.state_of("X").is_some());
}

#[test]
fn ping_verdict_needs_seventy_percent() {
    assert!(ping_verdict(7, 10));
    assert!(!ping_verdict(6, 10));
    assert!(ping_verdict(10, 10));
    assert!(!ping_verdict(0, 0));
}

#[test]
fn ping_attempt_output() {
    assert!(ping_attempt_succeeded(true, "1 packets transmitted, 1 received, 0.0% packet loss"));
    assert!(!ping_attempt_succeeded(true, "1 packets transmitted, 0 received, 100.0% packet loss"));
    assert!(!ping_attempt_succeeded(false, ""));
}

#[test]
fn windows_reply_output() {
    assert!(ping_reply_seen(true, "Reply from 10.0.0.1: bytes=32 time<1ms TTL=64"));
    assert!(!ping_reply_seen(true, "Request timed out."));
    assert!(!ping_reply_seen(false, "bytes=32"));
}

#[test]
fn logging_decision() {
    assert!(!worth_logging(Transition::Unchanged, false));
    assert!(worth_logging(Transition::Unchanged, true));
    assert!(worth_logging(Transition::BecameDown, false));
}
