use amlog::stats::{band_of, bands, callsigns, modes, tally};
use amlog::{LogEntry, Timestamp};

fn entry(call: &str, hz: u64, mode: &str) -> LogEntry {
    LogEntry {
        id: format!("{}-{}", call, hz),
        timestamp: Timestamp { year: 2024, month: 5, day: 1, hour: 0, minute: 0, second: 0 },
        callsign: call.to_string(),
        frequency: hz,
        mode: mode.to_string(),
        rst_sent: None,
        rst_received: None,
        notes: None,
        name: None,
        qth: None,
        state: None,
        country: None,
        dxcc: None,
        band: None,
        operator: None,
        grid: None,
        power: None,
        custom_fields: Vec::new(),
    }
}

#[test]
fn band_edges() {
    assert_eq!(band_of(1_800_000), "160m");
    assert_eq!(band_of(2_000_000), "160m");
    assert_eq!(band_of(2_000_001), "Other");
    assert_eq!(band_of(7_074_000), "40m");
    assert_eq!(band_of(14_350_000), "20m");
    assert_eq!(band_of(29_700_000), "10m");
    assert_eq!(band_of(50_313_000), "6m");
    assert_eq!(band_of(146_520_000), "2m");
    assert_eq!(band_of(10_136_000), "Other");
}

#[test]
fn tallies_count_each_text() {
    let log = vec![
        entry("W1AW", 14_074_000, "FT8"),
        entry("K1ABC", 7_030_000, "CW"),
        entry("W1AW", 7_074_000, "FT8"),
        entry("DL1X", 14_074_000, "FT8"),
    ];
    assert_eq!(
        tally(&modes(&log)),
        vec![("FT8".to_string(), 3), ("CW".to_string(), 1)]
    );
    assert_eq!(tally(&callsigns(&log)).len(), 3);
    assert_eq!(
        tally(&bands(&log)),
        vec![("20m".to_string(), 2), ("40m".to_string(), 2)]
    );
    assert!(tally(&Vec::new()).is_empty());
}
