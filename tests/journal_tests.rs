use rustping::journal::{format_entry, parse_log_line, LogJournal, Timestamp};
use rustping::models::{Device, SensorType};

fn at(day: u8, hour: u8) -> Timestamp {
    Timestamp { year: 2024, month: 3, day, hour, minute: 7, second: 9 }
}

fn device(name: &str, ip: &str, sensors: Vec<SensorType>) -> Device {
    Device {
        name: name.to_string(),
        ip: ip.to_string(),
        category: "Network".to_string(),
        sensors,
        http_path: None,
        ping_status: None,
        http_status: None,
        bandwidth_usage: None,
    }
}

#[test]
fn router_line_reads_back() {
    let d = device("Router1", "192.168.1.1", vec![SensorType::Ping]);
    let line = format_entry(&d, Some(false), &at(5, 14));
    assert_eq!(line, "2024-03-05 14:07:09 - Router1 (192.168.1.1): Ping: FAIL, HTTP: N/A, Bandwidth: N/A");
    let e = parse_log_line(&line).unwrap();
    assert_eq!(e.device, "Router1");
    assert_eq!(e.address, "192.168.1.1");
    assert_eq!(e.ping, "FAIL");
    assert_eq!(e.http, "N/A");
    assert_eq!(e.bandwidth, "N/A");
    assert!(e.down);
    assert_eq!(e.date, "2024-03-05");
    assert_eq!(e.time, "14:07:09");
    assert_eq!(e.timestamp, "2024-03-05 14:07:09");
}

#[test]
fn bandwidth_written_with_two_decimals() {
    let mut d = device("Web", "10.0.0.2", vec![SensorType::Ping, SensorType::Http]);
    d.http_status = Some(true);
    d.bandwidth_usage = Some(12305);
    let line = format_entry(&d, Some(true), &at(5, 9));
    assert_eq!(line, "2024-03-05 09:07:09 - Web (10.0.0.2): Ping: OK, HTTP: OK, Bandwidth: 123.05 Mbps");
    let e = parse_log_line(&line).unwrap();
    assert_eq!(e.bandwidth, "123.05 Mbps");
    assert!(!e.down);
}

#[test]
fn http_sensor_without_result_reads_fail() {
    let d = device("Web", "10.0.0.2", vec![SensorType::Https]);
    let line = format_entry(&d, None, &at(5, 9));
    assert!(line.ends_with("Ping: N/A, HTTP: FAIL, Bandwidth: N/A"));
}

#[test]
fn header_written_once_per_day() {
    let mut j = LogJournal::new();
    let d = device("A", "1.1.1.1", vec![SensorType::Ping]);
    let first = j.append(&d, Some(true), &at(5, 1));
    assert!(first.starts_with("// 2024-03-05\n2024-03-05 01:07:09 - A"));
    assert!(first.ends_with('\n'));
    let second = j.append(&d, Some(true), &at(5, 2));
    assert!(second.starts_with("2024-03-05 02:07:09"));
    let third = j.append(&d, Some(true), &at(6, 0));
    assert!(third.starts_with("// 2024-03-06\n"));
}

#[test]
fn header_and_blank_lines_are_not_entries() {
    assert!(parse_log_line("// 2024-03-05").is_none());
    assert!(parse_log_line("   ").is_none());
    assert!(parse_log_line("no separator here").is_none());
}

#[test]
fn lenient_field_reading() {
    let e = parse_log_line("2024-01-01 00:00:00 - Switch: HTTP: OK, Ping:fail, Extra: 1").unwrap();
    assert_eq!(e.device, "Switch");
    assert_eq!(e.address, "");
    assert_eq!(e.ping, "fail");
    assert_eq!(e.http, "OK");
    assert_eq!(e.bandwidth, "");
    assert!(e.down);
}
