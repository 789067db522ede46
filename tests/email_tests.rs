use rustping::email::{
    percentage_of, ConfigError, DeviceStatus, EmailConfig, EmailService, HealthClass, LogData,
};

fn config() -> EmailConfig {
    EmailConfig {
        smtp_server: "smtp.example.com".to_string(),
        smtp_port: 587,
        sender_email: "monitor@example.com".to_string(),
        sender_password: "SECRET-REDACTED".to_string(),
        recipients: vec!["ops@example.com".to_string(), "noc@example.com".to_string()],
        email_subject: "Alert {device_name} {date}".to_string(),
        email_body: "{device_name} at {date} {time}: ping {ping_status}, http {http_status}, bw {bandwidth}".to_string(),
    }
}

fn log(ping: &str) -> LogData {
    LogData {
        date: "2024-05-01".to_string(),
        time: "10:00:00".to_string(),
        ping_status: ping.to_string(),
        http_status: "N/A".to_string(),
        bandwidth: "N/A".to_string(),
    }
}

fn status(name: &str, ok: &str, at: u64) -> DeviceStatus {
    DeviceStatus {
        name: name.to_string(),
        status: ok.to_string(),
        timestamp: "2024-05-01 10:00:00".to_string(),
        ping_status: "FAIL".to_string(),
        http_status: "N/A".to_string(),
        bandwidth: "N/A".to_string(),
        failure_count: 0,
        last_failure: None,
        checked_at: at,
    }
}

#[test]
fn health_eight_of_ten_is_warning() {
    let mut e = EmailService::new(config(), 0);
    for k in 0..10 {
        let name = format!("dev{}", k);
        let st = if k < 8 { "OK" } else { "FAIL" };
        e.add_notification(&name, st, &log(if k < 8 { "OK" } else { "FAIL" }), 10);
    }
    let b = e.build_batch();
    assert_eq!(b.total_devices, 10);
    assert_eq!(b.ok_devices, 8);
    assert_eq!(b.failed_devices, 2);
    assert_eq!(b.health_percentage, 80);
    assert_eq!(b.health_class, HealthClass::Warning);
    assert_eq!(b.health_class.label(), "warning");
    assert_eq!(b.rows.len(), 2);
    assert_eq!(b.history_rows.len(), 10);
}

#[test]
fn percentage_rounds_to_nearest() {
    assert_eq!(percentage_of(0, 0), 0);
    assert_eq!(percentage_of(2, 3), 67);
    assert_eq!(percentage_of(1, 3), 33);
    assert_eq!(percentage_of(19, 20), 95);
    assert_eq!(percentage_of(1, 8), 13);
    assert_eq!(percentage_of(5, 5), 100);
}

#[test]
fn health_classes() {
    let mut e = EmailService::new(config(), 0);
    e.add_notification("a", "OK", &log("OK"), 1);
    assert_eq!(e.build_batch().health_class, HealthClass::Good);
    e.add_notification("b", "FAIL", &log("FAIL"), 1);
    let b = e.build_batch();
    assert_eq!(b.health_percentage, 50);
    assert_eq!(b.health_class, HealthClass::Critical);
}

#[test]
fn repeated_failure_keeps_one_pending_entry() {
    let mut e = EmailService::new(config(), 0);
    e.record_failure(status("Router1", "FAIL", 5));
    let mut later = status("Router1", "FAIL", 9);
    later.failure_count = 2;
    e.record_failure(later);
    let b = e.build_batch();
    assert_eq!(b.rows.len(), 1);
    assert_eq!(b.rows[0].name, "Router1");
    assert_eq!(b.rows[0].details, "Failure count: 2");
}

#[test]
fn failed_send_keeps_pending() {
    let mut e = EmailService::new(config(), 0);
    e.add_notification("a", "FAIL", &log("FAIL"), 10);
    e.add_notification("b", "FAIL", &log("FAIL"), 10);
    let batch = e.start_flush();
    let before: Vec<String> = batch.rows.iter().map(|r| r.name.clone()).collect();
    assert!(!e.should_flush(2000));
    e.finish_flush(false, 2000, &batch.sent);
    let after: Vec<String> = e.build_batch().rows.iter().map(|r| r.name.clone()).collect();
    assert_eq!(before, after);
    assert_eq!(after, vec!["a".to_string(), "b".to_string()]);
    assert!(e.should_flush(2000));
}

#[test]
fn delivered_send_clears_pending_and_restarts_interval() {
    let mut e = EmailService::new(config(), 0);
    e.add_notification("a", "FAIL", &log("FAIL"), 10);
    assert!(e.should_flush(1800));
    let batch = e.start_flush();
    e.finish_flush(true, 1800, &batch.sent);
    assert_eq!(e.build_batch().rows.len(), 0);
    assert!(!e.should_flush(3599));
    assert!(e.should_flush(3600));
}

#[test]
fn nothing_to_report_is_not_due() {
    let e = EmailService::new(config(), 0);
    assert!(!e.should_flush(10_000));
}

#[test]
fn add_notification_reports_due_flush() {
    let mut e = EmailService::new(config(), 100);
    assert!(!e.add_notification("a", "OK", &log("OK"), 200));
    assert!(e.add_notification("a", "OK", &log("OK"), 1900));
}

#[test]
fn history_keeps_only_recent_records() {
    let mut e = EmailService::new(config(), 0);
    e.record_status(status("a", "FAIL", 0));
    e.record_status(status("a", "OK", 1000));
    e.record_status(status("a", "OK", 2500));
    let b = e.build_batch();
    assert_eq!(b.history_rows.len(), 1);
    assert_eq!(b.history_rows[0].status, "OK");
    assert_eq!(b.ok_devices, 1);
}

#[test]
fn report_rows_carry_classes_and_details() {
    let mut e = EmailService::new(config(), 0);
    let mut s = status("a", "FAIL", 0);
    s.http_status = "301".to_string();
    s.last_failure = Some("yesterday".to_string());
    e.record_status(s);
    let b = e.build_batch();
    let r = &b.history_rows[0];
    assert_eq!(r.status_class, HealthClass::Critical);
    assert_eq!(r.ping_class, HealthClass::Critical);
    assert_eq!(r.http_class, HealthClass::Warning);
    assert_eq!(r.details, "Last failure: yesterday");
}

#[test]
fn default_config() {
    let c = EmailConfig::default();
    assert_eq!(c.smtp_server, "smtp.gmail.com");
    assert_eq!(c.smtp_port, 587);
    assert!(c.recipients.is_empty());
    assert_eq!(c.email_subject, "Failed Log Alert - {device_name}");
}

#[test]
fn invalid_config_is_refused_and_old_one_stays() {
    let mut e = EmailService::new(config(), 0);
    let mut c = config();
    c.smtp_port = 0;
    assert_eq!(e.update_config(c), Err(ConfigError::MissingServer));
    let mut c = config();
    c.sender_password = String::new();
    assert_eq!(e.update_config(c), Err(ConfigError::MissingSender));
    let mut c = config();
    c.recipients.clear();
    assert_eq!(e.update_config(c), Err(ConfigError::NoRecipients));
    assert_eq!(e.get_config().smtp_server, "smtp.example.com");
    let mut c = config();
    c.smtp_server = "mail.example.org".to_string();
    assert_eq!(e.update_config(c), Ok(()));
    assert_eq!(e.get_config().smtp_server, "mail.example.org");
    assert_eq!(ConfigError::NoRecipients.message(), "At least one recipient is required");
}

#[test]
fn send_email_fills_templates() {
    let e = EmailService::new(config(), 0);
    let m = e.send_email("Router1", &log("FAIL")).unwrap();
    assert_eq!(m.subject, "Alert Router1 2024-05-01");
    assert_eq!(m.body, "Router1 at 2024-05-01 10:00:00: ping FAIL, http N/A, bw N/A");
    assert_eq!(m.from, "monitor@example.com");
    assert_eq!(m.to, vec!["ops@example.com".to_string(), "noc@example.com".to_string()]);
}

#[test]
fn send_email_needs_recipients_and_sender() {
    let mut c = config();
    c.recipients.clear();
    let e = EmailService::new(c, 0);
    assert!(matches!(e.send_email("x", &log("FAIL")), Err(ConfigError::NoRecipients)));
    let mut c = config();
    c.sender_email = String::new();
    let e = EmailService::new(c, 0);
    assert!(matches!(e.send_email("x", &log("FAIL")), Err(ConfigError::MissingSender)));
}

#[test]
fn send_test_email_checks() {
    let e = EmailService::new(config(), 0);
    assert!(matches!(e.send_test_email(""), Err(ConfigError::MissingTestAddress)));
    let m = e.send_test_email("me@example.com").unwrap();
    assert_eq!(m.to, vec!["me@example.com".to_string()]);
    assert_eq!(m.subject, "RustPing Test Email");
    let e = EmailService::new(EmailConfig::default(), 0);
    assert!(matches!(e.send_test_email("me@example.com"), Err(ConfigError::MissingSender)));
}

#[test]
fn failure_recorded_during_send_survives_delivery() {
    let mut e = EmailService::new(config(), 0);
    e.record_failure(status("a", "FAIL", 5));
    e.record_failure(status("b", "FAIL", 5));
    let batch = e.start_flush();
    assert_eq!(batch.sent.len(), 2);
    let mut again = status("b", "FAIL", 7);
    again.failure_count = 3;
    e.record_failure(again);
    e.record_failure(status("c", "FAIL", 8));
    e.finish_flush(true, 1800, &batch.sent);
    let names: Vec<String> = e.build_batch().rows.iter().map(|r| r.name.clone()).collect();
    assert_eq!(names, vec!["b".to_string(), "c".to_string()]);
}

#[test]
fn one_report_at_a_time() {
    let mut e = EmailService::new(config(), 0);
    e.record_failure(status("a", "FAIL", 5));
    assert!(e.should_flush(1800));
    let batch = e.start_flush();
    assert!(!e.should_flush(5000));
    e.finish_flush(false, 5000, &batch.sent);
    assert!(e.should_flush(5000));
}
