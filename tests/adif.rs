use amlog::adif_read::adif_to_entries;
use amlog::adif_write::entries_to_adif;
use amlog::text::{insert_char, string_of};
use amlog::{LogEntry, StorageError, Timestamp};

fn entry(id: &str, call: &str, hz: u64, mode: &str) -> LogEntry {
    LogEntry {
        id: id.to_string(),
        timestamp: Timestamp { year: 2024, month: 2, day: 29, hour: 23, minute: 59, second: 7 },
        callsign: call.to_string(),
        frequency: hz,
        mode: mode.to_string(),
        rst_sent: None,
        rst_received: None,
        notes: None,
        name: None,
        qth: None,
        state: None,
        country: None,
        dxcc: None,
        band: None,
        operator: None,
        grid: None,
        power: None,
        custom_fields: Vec::new(),
    }
}

#[test]
fn encode_single_record_exactly() {
    let text = entries_to_adif(&vec![entry("a", "W1AW", 14_074_000, "FT8")]);
    assert_eq!(
        text,
        "<APP_AMLOG_ID:1>a<CALL:4>W1AW<QSO_DATE:8>20240229<TIME_ON:6>235907<FREQ:6>14.074<MODE:3>FT8<EOR>\n"
    );
}

#[test]
fn encode_formats_numbers() {
    let mut e = entry("b", "K1ABC", 7_000_000, "CW");
    e.dxcc = Some(291);
    e.power = Some(500);
    let text = entries_to_adif(&vec![e]);
    assert!(text.contains("<FREQ:1>7<"));
    assert!(text.contains("<DXCC:3>291"));
    assert!(text.contains("<TX_PWR:3>0.5"));
    let mut f = entry("c", "K1ABC", 144_390_123, "FM");
    f.power = Some(100_000);
    let text = entries_to_adif(&vec![f]);
    assert!(text.contains("<FREQ:10>144.390123"));
    assert!(text.contains("<TX_PWR:3>100<"));
}

#[test]
fn encode_empty_set() {
    assert_eq!(entries_to_adif(&Vec::new()), "");
    assert_eq!(adif_to_entries("").unwrap(), Vec::new());
}

#[test]
fn round_trip_with_all_fields() {
    let mut e = entry("uuid-1", "W1AW", 14_074_500, "FT8");
    e.rst_sent = Some("-10".to_string());
    e.rst_received = Some("+03".to_string());
    e.notes = Some("héllo <world>: 73".to_string());
    e.name = Some("Hiram".to_string());
    e.qth = Some("Newington".to_string());
    e.state = Some("CT".to_string());
    e.country = Some("United States".to_string());
    e.dxcc = Some(291);
    e.band = Some("20m".to_string());
    e.operator = Some("N0CALL".to_string());
    e.grid = Some("FN31pr".to_string());
    e.power = Some(5_250);
    e.custom_fields.push(("my_rig".to_string(), "IC-705".to_string()));
    e.custom_fields.push(("sota_ref".to_string(), "W1/HA-001".to_string()));
    let g = entry("uuid-2", "DL1ABC", 3_573_000, "FT8");
    let all = vec![e, g];
    let text = entries_to_adif(&all);
    assert!(text.contains("<NOTES:18>héllo <world>: 73"));
    assert!(text.contains("<MY_RIG:6>IC-705"));
    assert_eq!(adif_to_entries(&text).unwrap(), all);
}

#[test]
fn decode_foreign_file_with_header() {
    let text = "Exported by some logger\n<ADIF_VER:5>3.1.0\n<EOH>\n\
                <call:5>K1ABC <QSO_DATE:8>20240102 <TIME_ON:4>1230 <FREQ:5>7.074 \
                <MODE:3>FT8 <RST_SENT:3>-10 <MY_RIG:6>IC-705 <Gridsquare:4:S>FN42 <EOR>\n";
    let got = adif_to_entries(text).unwrap();
    assert_eq!(got.len(), 1);
    let r = &got[0];
    assert_eq!(r.id, "202401021230-K1ABC");
    assert_eq!(r.callsign, "K1ABC");
    assert_eq!(r.frequency, 7_074_000);
    assert_eq!(
        r.timestamp,
        Timestamp { year: 2024, month: 1, day: 2, hour: 12, minute: 30, second: 0 }
    );
    assert_eq!(r.rst_sent, Some("-10".to_string()));
    assert_eq!(r.grid, Some("FN42".to_string()));
    assert_eq!(r.custom_fields, vec![("my_rig".to_string(), "IC-705".to_string())]);
}

#[test]
fn decode_skips_incomplete_records() {
    let text = "<CALL:4>W1AW<QSO_DATE:8>20240102<TIME_ON:4>1230<FREQ:2>14<EOR>\
                <CALL:4>K1AB<QSO_DATE:8>20240230<TIME_ON:4>1230<FREQ:2>14<MODE:2>CW<EOR>\
                <CALL:4>N0NE<QSO_DATE:8>20240102<TIME_ON:4>1230<FREQ:3>1.x<MODE:2>CW<EOR>\
                <CALL:4>G4XY<QSO_DATE:8>20240102<TIME_ON:6>123000<FREQ:4>50.1<MODE:2>CW<EOR>";
    let got = adif_to_entries(text).unwrap();
    assert_eq!(got.len(), 1);
    assert_eq!(got[0].callsign, "G4XY");
    assert_eq!(got[0].frequency, 50_100_000);
}

#[test]
fn decode_later_field_replaces_earlier() {
    let text = "<CALL:4>W1AW<CALL:5>K1ABC<QSO_DATE:8>20240102<TIME_ON:4>1230<FREQ:2>14\
                <MODE:2>CW<X_A:1>1<X_A:1>2<DXCC:11>99999999999<EOR>";
    let got = adif_to_entries(text).unwrap();
    assert_eq!(got[0].callsign, "K1ABC");
    assert_eq!(got[0].dxcc, None);
    assert_eq!(got[0].custom_fields, vec![("x_a".to_string(), "2".to_string())]);
}

#[test]
fn decode_truncated_field_is_an_error() {
    let r = adif_to_entries("<CALL:4>W1AW<NOTES:20>short");
    assert!(matches!(r, Err(StorageError::Adif(_))));
}

#[test]
fn decode_length_counts_bytes() {
    let text = "<CALL:4>W1AW<QSO_DATE:8>20240102<TIME_ON:4>1230<FREQ:2>14<MODE:2>CW\
                <NOTES:3>é!<EOR>";
    let got = adif_to_entries(text).unwrap();
    assert_eq!(got[0].notes, Some("é!".to_string()));
}

#[test]
fn text_helpers_change_the_text() {
    let s = "ab".to_string();
    assert_eq!(insert_char(&s, 1, 'X'), "aXb");
    assert_eq!(string_of(&vec!['o', 'k']), "ok");
}
