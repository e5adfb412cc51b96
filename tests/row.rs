use amlog::row::{entry_to_row, row_to_entry, SqlRow};
use amlog::{LogEntry, StorageError, Timestamp};

fn entry() -> LogEntry {
    LogEntry {
        id: "row-1".to_string(),
        timestamp: Timestamp { year: 2024, month: 3, day: 9, hour: 14, minute: 5, second: 30 },
        callsign: "W1AW".to_string(),
        frequency: 14_074_000,
        mode: "FT8".to_string(),
        rst_sent: Some("-10".to_string()),
        rst_received: None,
        notes: Some("first".to_string()),
        name: None,
        qth: None,
        state: Some("CT".to_string()),
        country: None,
        dxcc: Some(291),
        band: Some("20m".to_string()),
        operator: None,
        grid: None,
        power: Some(5_000),
        custom_fields: vec![
            ("a_key".to_string(), "1".to_string()),
            ("b_key".to_string(), "two".to_string()),
        ],
    }
}

#[test]
fn row_columns_of_a_record() {
    let row = entry_to_row(&entry()).unwrap();
    assert_eq!(row.timestamp, "2024-03-09T14:05:30+00:00");
    assert_eq!(row.frequency, 14_074_000);
    assert_eq!(row.dxcc, Some(291));
    assert_eq!(row.power, Some(5_000));
    assert_eq!(row.custom_fields, Some("{\"a_key\":\"1\",\"b_key\":\"two\"}".to_string()));
    assert_eq!(row.rst_received, None);
}

#[test]
fn row_round_trip() {
    let e = entry();
    let back = row_to_entry(&entry_to_row(&e).unwrap()).unwrap();
    assert_eq!(back, e);
}

#[test]
fn row_refuses_invalid_record() {
    let mut e = entry();
    e.timestamp.day = 31;
    e.timestamp.month = 4;
    assert!(matches!(entry_to_row(&e), Err(StorageError::Validation(_))));
    let mut f = entry();
    f.frequency = u64::MAX;
    assert!(matches!(entry_to_row(&f), Err(StorageError::Validation(_))));
}

#[test]
fn row_with_bad_columns() {
    let good = entry_to_row(&entry()).unwrap();
    let mut r1: SqlRow = good.clone();
    r1.timestamp = "yesterday".to_string();
    assert!(matches!(row_to_entry(&r1), Err(StorageError::ParseError(_))));
    let mut r2 = good.clone();
    r2.frequency = -1;
    assert!(matches!(row_to_entry(&r2), Err(StorageError::ParseError(_))));
    let mut r3 = good.clone();
    r3.dxcc = Some(1 << 40);
    assert!(matches!(row_to_entry(&r3), Err(StorageError::ParseError(_))));
    let mut r4 = good.clone();
    r4.custom_fields = Some("not json".to_string());
    assert!(row_to_entry(&r4).unwrap().custom_fields.is_empty());
    let mut r5 = good;
    r5.timestamp = "2024-03-09T16:05:30+02:00".to_string();
    r5.custom_fields = None;
    let e = row_to_entry(&r5).unwrap();
    assert_eq!(e.timestamp.hour, 14);
    assert!(e.custom_fields.is_empty());
}

#[test]
fn stored_instants_sort_in_time_order() {
    let mut early = entry();
    early.timestamp = Timestamp { year: 999, month: 12, day: 31, hour: 23, minute: 59, second: 59 };
    let mut late = entry();
    late.timestamp = Timestamp { year: 2024, month: 1, day: 1, hour: 0, minute: 0, second: 0 };
    let a = entry_to_row(&early).unwrap().timestamp;
    let b = entry_to_row(&late).unwrap().timestamp;
    assert_eq!(a, "0999-12-31T23:59:59+00:00");
    assert!(a < b);
}

#[test]
fn row_round_trip_keeps_custom_pairs() {
    let mut e = entry();
    e.custom_fields = vec![
        ("zeta".to_string(), "last".to_string()),
        ("alpha".to_string(), "first \"quoted\"".to_string()),
    ];
    let back = row_to_entry(&entry_to_row(&e).unwrap()).unwrap();
    let mut got = back.custom_fields.clone();
    let mut want = e.custom_fields.clone();
    got.sort();
    want.sort();
    assert_eq!(got, want);
    let mut same = back.clone();
    same.custom_fields = e.custom_fields.clone();
    assert_eq!(same, e);
}
