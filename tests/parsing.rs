use desc_loader::parse::{csv_parse, parse_rows, ParseCause, ParseError};
use desc_loader::timestamp::is_timestamp_str;

const HEADER: &str = "source_id,title,description,published_at,actual_start_at\n";

#[test]
fn parses_two_rows_in_order() {
    let data = format!(
        "{}S1,T1,D1,2024-01-01T00:00:00Z,2024-01-02T00:00:00Z\nS2,T2,D2,2024-01-03T00:00:00Z,2024-01-04T00:00:00Z\n",
        HEADER
    );
    let recs = csv_parse(data.as_bytes()).unwrap();
    assert_eq!(recs.len(), 2);
    assert_eq!(recs[0].source_id, "S1");
    assert_eq!(recs[0].title, "T1");
    assert_eq!(recs[0].description, "D1");
    assert_eq!(recs[0].published_at, "2024-01-01T00:00:00Z");
    assert_eq!(recs[0].actual_start_at, "2024-01-02T00:00:00Z");
    assert_eq!(recs[1].source_id, "S2");
    assert_eq!(recs[1].actual_start_at, "2024-01-04T00:00:00Z");
}

#[test]
fn header_columns_in_any_order() {
    let data = "title,actual_start_at,source_id,published_at,description\nT9,2024-02-02T10:00:00+09:00,S9,2024-02-01T10:00:00.5Z,D9\n";
    let recs = csv_parse(data.as_bytes()).unwrap();
    assert_eq!(recs.len(), 1);
    assert_eq!(recs[0].source_id, "S9");
    assert_eq!(recs[0].title, "T9");
    assert_eq!(recs[0].description, "D9");
    assert_eq!(recs[0].published_at, "2024-02-01T10:00:00.5Z");
    assert_eq!(recs[0].actual_start_at, "2024-02-02T10:00:00+09:00");
}

#[test]
fn header_only_gives_no_records() {
    let recs = csv_parse(HEADER.as_bytes()).unwrap();
    assert!(recs.is_empty());
}

#[test]
fn malformed_timestamp_reports_its_row() {
    let data = format!(
        "{}S1,T1,D1,2024-01-01T00:00:00Z,2024-01-02T00:00:00Z\nS2,T2,D2,2024-01-03T00:00:00Z,2024-01-04T00:00:00Z\nS3,T3,D3,not-a-date,2024-01-05T00:00:00Z\n",
        HEADER
    );
    let err = csv_parse(data.as_bytes()).unwrap_err();
    assert_eq!(err, ParseError { row: 4, cause: ParseCause::BadTimestamp });
}

#[test]
fn first_fault_wins() {
    let data = format!(
        "{}S1,T1,D1\nS2,T2,D2,bad,bad\n",
        HEADER
    );
    let err = csv_parse(data.as_bytes()).unwrap_err();
    assert_eq!(err, ParseError { row: 2, cause: ParseCause::MissingField });
}

#[test]
fn extra_field_is_rejected() {
    let data = format!("{}S1,T1,D1,2024-01-01T00:00:00Z,2024-01-02T00:00:00Z,X\n", HEADER);
    let err = csv_parse(data.as_bytes()).unwrap_err();
    assert_eq!(err, ParseError { row: 2, cause: ParseCause::ExtraField });
}

#[test]
fn empty_source_id_is_rejected() {
    let data = format!("{},T1,D1,2024-01-01T00:00:00Z,2024-01-02T00:00:00Z\n", HEADER);
    let err = csv_parse(data.as_bytes()).unwrap_err();
    assert_eq!(err, ParseError { row: 2, cause: ParseCause::EmptySourceId });
}

#[test]
fn unknown_header_is_rejected() {
    let data = "source_id,title,description,published_at,start\nS1,T1,D1,2024-01-01T00:00:00Z,2024-01-02T00:00:00Z\n";
    let err = csv_parse(data.as_bytes()).unwrap_err();
    assert_eq!(err, ParseError { row: 1, cause: ParseCause::BadHeader });
}

#[test]
fn empty_input_has_no_header() {
    let err = csv_parse(b"").unwrap_err();
    assert_eq!(err, ParseError { row: 1, cause: ParseCause::BadHeader });
}

#[test]
fn invalid_utf8_is_a_read_failure() {
    let mut data = HEADER.as_bytes().to_vec();
    data.extend_from_slice(b"S1,T\xff1,D1,2024-01-01T00:00:00Z,2024-01-02T00:00:00Z\n");
    let err = csv_parse(&data).unwrap_err();
    assert_eq!(err.row, 2);
    assert!(matches!(err.cause, ParseCause::ReadFailure(_)));
}

#[test]
fn quoted_field_keeps_its_comma() {
    let data = format!("{}S1,\"T, one\",D1,2024-01-01T00:00:00Z,2024-01-02T00:00:00Z\n", HEADER);
    let recs = csv_parse(data.as_bytes()).unwrap();
    assert_eq!(recs[0].title, "T, one");
}

fn strings(fields: &[&str]) -> Vec<String> {
    fields.iter().map(|f| f.to_string()).collect()
}

#[test]
fn parse_rows_reports_read_failure_after_rows() {
    let rows = vec![
        strings(&["source_id", "title", "description", "published_at", "actual_start_at"]),
        strings(&["S1", "T1", "D1", "2024-01-01T00:00:00Z", "2024-01-02T00:00:00Z"]),
    ];
    let err = parse_rows(&rows, Some("broken".to_string())).unwrap_err();
    assert_eq!(err, ParseError { row: 3, cause: ParseCause::ReadFailure("broken".to_string()) });
    let ok = parse_rows(&rows, None).unwrap();
    assert_eq!(ok.len(), 1);
    assert_eq!(ok[0].source_id, "S1");
}

#[test]
fn parse_rows_duplicate_header_name() {
    let rows = vec![strings(&["source_id", "source_id", "description", "published_at", "actual_start_at"])];
    let err = parse_rows(&rows, None).unwrap_err();
    assert_eq!(err, ParseError { row: 1, cause: ParseCause::BadHeader });
}

#[test]
fn timestamp_shapes() {
    assert!(is_timestamp_str("2024-01-01T00:00:00Z"));
    assert!(is_timestamp_str("2024-01-01T00:00:00.123Z"));
    assert!(is_timestamp_str("2024-01-01T00:00:00-05:30"));
    assert!(is_timestamp_str("9999-99-99T99:99:99Z"));
    assert!(!is_timestamp_str("not-a-date"));
    assert!(!is_timestamp_str("2024-01-01"));
    assert!(!is_timestamp_str("2024-01-01T00:00:00"));
    assert!(!is_timestamp_str("2024-01-01T00:00:00.Z"));
    assert!(!is_timestamp_str("2024-01-01 00:00:00Z"));
    assert!(!is_timestamp_str("2024-01-01T00:00:00+0530"));
    assert!(!is_timestamp_str(""));
}
