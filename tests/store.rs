use amlog::db::{DatabaseConfig, JournalMode};
use amlog::store::LogStore;
use amlog::{LogEntry, StorageError, StorageFormat, StorageManager, Timestamp};

fn stamp() -> Timestamp {
    Timestamp { year: 2024, month: 3, day: 9, hour: 14, minute: 5, second: 30 }
}

fn entry(id: &str, call: &str, hz: u64, mode: &str) -> LogEntry {
    LogEntry {
        id: id.to_string(),
        timestamp: stamp(),
        callsign: call.to_string(),
        frequency: hz,
        mode: mode.to_string(),
        rst_sent: None,
        rst_received: None,
        notes: None,
        name: None,
        qth: None,
        state: None,
        country: None,
        dxcc: None,
        band: None,
        operator: None,
        grid: None,
        power: None,
        custom_fields: Vec::new(),
    }
}

#[test]
fn test_json_storage_crud() {
    let mut store = LogStore::new();
    let mut e = entry("id-1", "W1AW", 14_074_000, "FT8");
    e.rst_sent = Some("599".to_string());
    e.rst_received = Some("599".to_string());
    e.notes = Some("Test QSO".to_string());
    store.save_entry(e);

    let retrieved = store.get_entry(&"id-1".to_string());
    assert!(retrieved.is_some());
    assert_eq!(retrieved.unwrap().callsign, "W1AW");

    let mut updated = entry("id-1", "K1ABC", 14_074_000, "FT8");
    updated.notes = Some("Test QSO".to_string());
    assert_eq!(store.update_entry(updated), Ok(()));
    assert_eq!(store.get_entry(&"id-1".to_string()).unwrap().callsign, "K1ABC");

    assert_eq!(store.delete_entry(&"id-1".to_string()), Ok(()));
    assert!(store.get_entry(&"id-1".to_string()).is_none());
}

#[test]
fn save_replaces_every_field() {
    let mut store = LogStore::new();
    let mut first = entry("a", "W1AW", 7_074_000, "FT8");
    first.notes = Some("old note".to_string());
    first.custom_fields.push(("my_rig".to_string(), "IC-705".to_string()));
    store.save_entry(first);
    store.save_entry(entry("b", "K1ABC", 7_074_000, "CW"));
    let second = entry("a", "W1AW", 14_074_000, "SSB");
    store.save_entry(second.clone());
    let got = store.get_entry(&"a".to_string()).unwrap();
    assert_eq!(got, second);
    assert_eq!(got.notes, None);
    assert!(got.custom_fields.is_empty());
    let all = store.list_entries();
    assert_eq!(all.len(), 2);
    assert_eq!(all[0].id, "a");
    assert_eq!(all[1].id, "b");
}

#[test]
fn add_with_taken_id_fails() {
    let mut store = LogStore::new();
    assert_eq!(store.add_entry(entry("a", "W1AW", 14_074_000, "FT8")), Ok(()));
    assert_eq!(
        store.add_entry(entry("a", "K1ABC", 7_000_000, "CW")),
        Err(StorageError::EntryExists)
    );
    let all = store.list_entries();
    assert_eq!(all.len(), 1);
    assert_eq!(all[0].callsign, "W1AW");
}

#[test]
fn update_and_delete_of_missing_id() {
    let mut store = LogStore::new();
    store.save_entry(entry("a", "W1AW", 14_074_000, "FT8"));
    assert_eq!(
        store.update_entry(entry("zz", "K1ABC", 7_000_000, "CW")),
        Err(StorageError::NotFound("zz".to_string()))
    );
    assert_eq!(
        store.delete_entry(&"zz".to_string()),
        Err(StorageError::NotFound("zz".to_string()))
    );
    let all = store.list_entries();
    assert_eq!(all, vec![entry("a", "W1AW", 14_074_000, "FT8")]);
    store.clear();
    assert_eq!(store.len(), 0);
}

#[test]
fn manager_add_list_export() {
    let mut m = StorageManager::new(StorageFormat::Json, "log.json".to_string(), Vec::new()).unwrap();
    let e = entry("a", "W1AW", 14_074_000, "FT8");
    assert_eq!(m.add_entry(e.clone()), Ok(()));
    assert_eq!(m.list_entries(), vec![e]);
    let text = m.export_adif();
    assert_eq!(text.matches("<EOR>").count(), 1);
    assert!(text.ends_with("<EOR>\n"));
    assert!(text.contains("<CALL:4>W1AW"));
    assert!(text.contains("<FREQ:6>14.074"));
    assert!(text.contains("<MODE:3>FT8"));
}

#[test]
fn manager_rejects_duplicate_ids() {
    let r = StorageManager::new(
        StorageFormat::Json,
        "log.json".to_string(),
        vec![entry("a", "W1AW", 1, "FT8"), entry("a", "K1ABC", 2, "CW")],
    );
    assert!(matches!(r, Err(StorageError::EntryExists)));
}

#[test]
fn manager_import_twice_is_idempotent() {
    let mut m = StorageManager::new(
        StorageFormat::Sqlite,
        "log.db".to_string(),
        vec![entry("x", "DL1ABC", 3_573_000, "FT8")],
    )
    .unwrap();
    let text = "<CALL:4>W1AW<QSO_DATE:8>20240309<TIME_ON:6>140530<FREQ:6>14.074<MODE:3>FT8<EOR>\n\
                <CALL:5>K1ABC<QSO_DATE:8>20240310<TIME_ON:4>0900<FREQ:1>7<MODE:2>CW<EOR>\n";
    assert_eq!(m.import_adif(text), Ok(()));
    let once = m.list_entries();
    assert_eq!(once.len(), 3);
    assert_eq!(once[1].id, "20240309140530-W1AW");
    assert_eq!(once[2].frequency, 7_000_000);
    assert_eq!(m.import_adif(text), Ok(()));
    assert_eq!(m.list_entries(), once);
    assert!(matches!(m.import_adif("<CALL:9>W1AW"), Err(StorageError::Adif(_))));
    assert_eq!(m.list_entries(), once);
}

#[test]
fn manager_change_format_keeps_records() {
    let entries = vec![
        entry("a", "W1AW", 14_074_000, "FT8"),
        entry("b", "K1ABC", 7_030_000, "CW"),
        entry("c", "DL1ABC", 3_573_000, "FT8"),
    ];
    let mut m = StorageManager::new(StorageFormat::Json, "log.json".to_string(), entries.clone())
        .unwrap();
    assert_eq!(m.change_storage_format(StorageFormat::Sqlite, "log.db".to_string(), Vec::new()), Ok(()));
    assert_eq!(m.list_entries(), entries);
    assert_eq!(m.get_format(), StorageFormat::Sqlite);
    assert_eq!(m.get_path(), "log.db");
    assert_eq!(m.save_entry(entry("d", "G4XYZ", 50_313_000, "FT8")), Ok(()));
    assert_eq!(m.list_entries().len(), 4);
    assert_eq!(m.delete_entry(&"a".to_string()), Ok(()));
    assert!(m.get_entry(&"a".to_string()).is_none());
    assert!(matches!(m.update_entry(entry("a", "W1AW", 1, "FT8")), Err(StorageError::NotFound(_))));
    m.clear();
    assert!(m.list_entries().is_empty());
}

#[test]
fn database_config_defaults() {
    let c = DatabaseConfig::default();
    assert_eq!(c.max_connections, 5);
    assert!(c.enable_wal);
    assert!(c.foreign_keys);
    assert_eq!(c.journal_mode, JournalMode::Wal);
    assert_eq!(JournalMode::Truncate.pragma_value(), "TRUNCATE");
    assert_eq!(JournalMode::Off.pragma_value(), "OFF");
}

#[test]
fn change_format_keeps_records_of_the_target() {
    let mut m = StorageManager::new(
        StorageFormat::Json,
        "log.json".to_string(),
        vec![entry("a", "W1AW", 14_074_000, "FT8"), entry("b", "K1ABC", 7_030_000, "CW")],
    )
    .unwrap();
    let target = vec![entry("z", "G4XYZ", 3_573_000, "FT8"), entry("a", "OLD", 1, "AM")];
    assert_eq!(m.change_storage_format(StorageFormat::Adif, "log.adi".to_string(), target), Ok(()));
    assert_eq!(
        m.list_entries(),
        vec![
            entry("z", "G4XYZ", 3_573_000, "FT8"),
            entry("a", "W1AW", 14_074_000, "FT8"),
            entry("b", "K1ABC", 7_030_000, "CW"),
        ]
    );
    assert_eq!(m.get_format(), StorageFormat::Adif);
}

#[test]
fn change_format_refuses_a_broken_target() {
    let mut m = StorageManager::new(StorageFormat::Json, "log.json".to_string(), vec![entry("a", "W1AW", 1, "CW")]).unwrap();
    let bad = vec![entry("z", "G4XYZ", 1, "FT8"), entry("z", "G4XYZ", 2, "FT8")];
    assert_eq!(
        m.change_storage_format(StorageFormat::Sqlite, "log.db".to_string(), bad),
        Err(StorageError::EntryExists)
    );
    assert_eq!(m.get_format(), StorageFormat::Json);
    assert_eq!(m.list_entries().len(), 1);
}

#[test]
fn repeated_custom_keys_are_refused() {
    let mut e = entry("a", "W1AW", 1, "CW");
    e.custom_fields.push(("k".to_string(), "1".to_string()));
    e.custom_fields.push(("k".to_string(), "2".to_string()));
    let r = StorageManager::new(StorageFormat::Json, "log.json".to_string(), vec![e]);
    assert!(matches!(r, Err(StorageError::Validation(_))));
}

#[test]
fn manager_update_of_missing_id_is_not_found() {
    let mut m = StorageManager::new(StorageFormat::Json, "log.json".to_string(), Vec::new()).unwrap();
    assert_eq!(
        m.update_entry(entry("q", "W1AW", 1, "CW")),
        Err(StorageError::NotFound("q".to_string()))
    );
}
