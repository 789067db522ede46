use rustping::export::{
    csv_row_of, date_before_of, device_filters, export_log, in_range_of, line_date, process_logs, split_char,
};

fn lines() -> Vec<String> {
    vec![
        "// 2024-01-01".to_string(),
        "2024-01-01 10:00:00 - Core Switch (192.168.0.100): Ping: FAIL, HTTP: N/A, Bandwidth: N/A".to_string(),
        "2024-01-02 10:00:00 - Edge Router (10.0.0.1): Ping: OK, HTTP: OK, Bandwidth: 12.50 Mbps".to_string(),
        "2024-01-03 10:00:00 - Router1 (1.2.3.4): Ping: OK, HTTP: N/A, Bandwidth: N/A".to_string(),
        "garbage".to_string(),
    ]
}

#[test]
fn plain_export_keeps_headers_and_entries() {
    let out = export_log(&lines(), None, None, None, None);
    let expected = [lines()[0].clone(), lines()[1].clone(), lines()[2].clone(), lines()[3].clone()].join("\n");
    assert_eq!(out, expected);
}

#[test]
fn date_range_filter() {
    let out = export_log(&lines(), None, Some("2024-01-02"), Some("2024-01-02"), Some("text"));
    assert_eq!(out, [lines()[0].clone(), lines()[2].clone()].join("\n"));
}

#[test]
fn device_filter_matches_name_or_address() {
    let out = export_log(&lines(), Some(" CORE , nothing"), None, None, None);
    assert_eq!(out, [lines()[0].clone(), lines()[1].clone()].join("\n"));
    let out = export_log(&lines(), Some("10.0.0"), None, None, None);
    assert_eq!(out, [lines()[0].clone(), lines()[2].clone()].join("\n"));
}

#[test]
fn device_filter_ignores_status_fields() {
    let out = export_log(&lines(), Some("fail"), None, None, None);
    assert_eq!(out, lines()[0].clone());
    let out = export_log(&lines(), Some("n/a,ping"), None, None, None);
    assert_eq!(out, lines()[0].clone());
}

#[test]
fn csv_export() {
    let out = export_log(&lines(), None, Some("2024-01-02"), None, Some("CSV"));
    assert_eq!(
        out,
        "Timestamp,Device Name,IP Address,Ping,HTTP,Bandwidth\n\
         2024-01-02 10:00:00,Edge Router,10.0.0.1,OK,OK,12.50 Mbps\n\
         2024-01-03 10:00:00,Router1,1.2.3.4,OK,N/A,N/A"
    );
}

#[test]
fn csv_of_a_journal_line() {
    let lines = vec!["2024-05-01 10:00:00 - Router1 (192.168.1.10): Ping: FAIL, HTTP: N/A, Bandwidth: N/A".to_string()];
    assert_eq!(
        export_log(&lines, None, None, None, Some("csv")),
        "Timestamp,Device Name,IP Address,Ping,HTTP,Bandwidth\n2024-05-01 10:00:00,Router1,192.168.1.10,FAIL,N/A,N/A"
    );
}

#[test]
fn csv_row_fields() {
    assert_eq!(
        csv_row_of("2024-01-01 10:00:00 - A: Ping: OK").unwrap(),
        "2024-01-01 10:00:00,A,,OK,N/A,N/A"
    );
    assert!(csv_row_of("// 2024-01-01").is_none());
    assert!(csv_row_of("2024-01-01 10:00:00 - lonely").is_none());
}

#[test]
fn filters_are_trimmed_and_lowered() {
    assert_eq!(device_filters(" Core ,EDGE"), vec!["core".to_string(), "edge".to_string()]);
    assert_eq!(split_char("a,,b", ','), vec!["a".to_string(), String::new(), "b".to_string()]);
}

#[test]
fn timestamp_dates() {
    assert_eq!(line_date("2024-02-29 10:00:00"), Some((2024, 2, 29)));
    assert_eq!(line_date("2023-02-29 10:00:00"), None);
    assert_eq!(line_date("short"), None);
}

#[test]
fn date_bounds() {
    assert!(date_before_of((2023, 12, 31), (2024, 1, 1)));
    assert!(!date_before_of((2024, 1, 1), (2024, 1, 1)));
    assert!(in_range_of((2024, 1, 2), Some((2024, 1, 2)), Some((2024, 1, 2))));
    assert!(!in_range_of((2024, 1, 3), None, Some((2024, 1, 2))));
    assert!(!in_range_of((2024, 1, 1), Some((2024, 1, 2)), None));
    assert!(in_range_of((1999, 5, 5), None, None));
}

#[test]
fn process_logs_keeps_dated_lines_in_range() {
    let kept = process_logs(&lines(), Some((2024, 1, 2)), None);
    assert_eq!(kept, vec![lines()[2].clone(), lines()[3].clone()]);
}
