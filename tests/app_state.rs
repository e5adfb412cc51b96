use amlog::app::App;
use amlog::{AppMode, LogEntry, StorageFormat, StorageManager, Timestamp};

fn entry(id: &str, call: &str) -> LogEntry {
    LogEntry {
        id: id.to_string(),
        timestamp: Timestamp { year: 2024, month: 1, day: 1, hour: 0, minute: 0, second: 0 },
        callsign: call.to_string(),
        frequency: 7_030_000,
        mode: "CW".to_string(),
        rst_sent: None,
        rst_received: None,
        notes: None,
        name: None,
        qth: None,
        state: None,
        country: None,
        dxcc: None,
        band: None,
        operator: None,
        grid: None,
        power: None,
        custom_fields: Vec::new(),
    }
}

fn app_with(entries: Vec<LogEntry>) -> App {
    App::new(StorageManager::new(StorageFormat::Sqlite, "log.db".to_string(), entries).unwrap())
}

#[test]
fn app_starts_on_the_list() {
    let app = app_with(vec![entry("a", "W1AW")]);
    assert_eq!(app.mode, AppMode::Normal);
    assert_eq!(app.status_message, Some(("amlog".to_string(), false)));
    assert_eq!(app.get_entries().len(), 1);
    assert_eq!(app.selected_index(), None);
}

#[test]
fn app_selection_wraps() {
    let mut app = app_with(vec![entry("a", "W1AW"), entry("b", "K1ABC"), entry("c", "DL1X")]);
    app.select_previous();
    assert_eq!(app.selected_index(), Some(2));
    app.select_next();
    assert_eq!(app.selected_index(), Some(0));
    app.select_next();
    assert_eq!(app.selected_index(), Some(1));
    assert_eq!(app.get_selected_entry().unwrap().callsign, "K1ABC");
    let mut empty = app_with(Vec::new());
    empty.select_next();
    assert_eq!(empty.selected_index(), None);
}

#[test]
fn app_save_new_entry() {
    let mut app = app_with(Vec::new());
    app.enter_new_mode();
    for c in "W1AW".chars() {
        app.handle_input(c);
    }
    app.next_field();
    for c in "14.0745".chars() {
        app.handle_input(c);
    }
    app.next_field();
    for c in "FT8".chars() {
        app.handle_input(c);
    }
    app.save_entry();
    assert_eq!(app.status_message, Some(("Entry saved successfully".to_string(), false)));
    assert_eq!(app.mode, AppMode::Normal);
    let e = &app.get_entries()[0];
    assert_eq!(e.callsign, "W1AW");
    assert_eq!(e.frequency, 14_074_500);
    assert_eq!(e.rst_sent, Some(String::new()));
    assert_eq!(app.storage().list_entries().len(), 1);
    assert_eq!(app.form.fields[0].value, "");
}

#[test]
fn app_save_rejects_bad_frequency() {
    let mut app = app_with(Vec::new());
    app.enter_new_mode();
    app.form.fields[0].value = "W1AW".to_string();
    app.form.fields[1].value = "fast".to_string();
    app.save_entry();
    assert_eq!(app.status_message, Some(("Invalid frequency format".to_string(), true)));
    assert!(app.get_entries().is_empty());
}

#[test]
fn app_edit_keeps_id() {
    let mut app = app_with(vec![entry("a", "W1AW"), entry("b", "K1ABC")]);
    app.select_next();
    app.select_next();
    app.edit_selected_entry();
    assert_eq!(app.mode, AppMode::Edit);
    assert_eq!(app.form.fields[0].value, "K1ABC");
    assert_eq!(app.form.fields[1].value, "7.03");
    app.form.fields[2].value = "SSB".to_string();
    app.save_entry();
    assert_eq!(app.status_message, Some(("Entry updated successfully".to_string(), false)));
    let e = &app.get_entries()[1];
    assert_eq!(e.id, "b");
    assert_eq!(e.mode, "SSB");
    assert_eq!(app.storage().get_entry(&"b".to_string()).unwrap().mode, "SSB");
}

#[test]
fn app_delete_and_undo() {
    let mut app = app_with(vec![entry("a", "W1AW"), entry("b", "K1ABC")]);
    assert_eq!(app.delete_current_entry(), Ok(()));
    assert_eq!(app.get_entries().len(), 2);
    app.select_previous();
    assert_eq!(app.delete_current_entry(), Ok(()));
    assert_eq!(app.get_entries().len(), 1);
    assert_eq!(app.selected_index(), Some(0));
    assert_eq!(app.deleted_entries.len(), 1);
    assert_eq!(app.deleted_entries[0].index, 1);
    assert!(app.storage().get_entry(&"b".to_string()).is_none());
    assert_eq!(app.undo_delete(), Ok(()));
    assert_eq!(app.get_entries()[1].id, "b");
    assert_eq!(app.selected_index(), Some(1));
    assert!(app.storage().get_entry(&"b".to_string()).is_some());
    assert_eq!(app.undo_delete(), Ok(()));
    assert_eq!(app.status_message, Some(("No deletions to undo".to_string(), false)));
}

#[test]
fn app_change_format() {
    let mut app = app_with(vec![entry("a", "W1AW")]);
    assert_eq!(app.change_storage_format(StorageFormat::Json, "log.json".to_string(), vec![entry("t", "G4XYZ")]), Ok(()));
    assert_eq!(app.storage().get_format(), StorageFormat::Json);
    assert_eq!(app.storage().list_entries().len(), 2);
    assert_eq!(app.get_entries()[0].id, "t");
    app.set_error("boom");
    assert_eq!(app.status_message, Some(("boom".to_string(), true)));
    app.enter_normal_mode();
    assert_eq!(app.status_message, None);
    app.enter_edit_mode();
    assert_eq!(app.mode, AppMode::Edit);
}

#[test]
fn app_import_lists_the_log() {
    let mut app = app_with(vec![entry("a", "W1AW")]);
    app.select_next();
    let text = "<CALL:5>K1ABC<QSO_DATE:8>20240310<TIME_ON:4>0900<FREQ:1>7<MODE:2>CW<EOR>";
    assert_eq!(app.import_adif(text), Ok(()));
    assert_eq!(app.get_entries().len(), 2);
    assert_eq!(app.selected_index(), None);
    assert_eq!(app.status_message, Some(("Import done".to_string(), false)));
    assert!(app.import_adif("<NOTES:9>x").is_err());
    assert_eq!(app.get_entries().len(), 2);
}

#[test]
fn app_save_form_at_given_instant_and_id() {
    let mut app = app_with(vec![entry("a", "W1AW")]);
    app.enter_new_mode();
    app.form.fields[0].value = "K1ABC".to_string();
    app.form.fields[1].value = "7.03".to_string();
    app.form.fields[2].value = "CW".to_string();
    let now = Timestamp { year: 2025, month: 6, day: 30, hour: 12, minute: 0, second: 1 };
    app.save_form_at(now, "a".to_string());
    assert_eq!(
        app.status_message,
        Some(("Failed to save entry: Entry already exists".to_string(), true))
    );
    assert_eq!(app.get_entries().len(), 1);
    app.save_form_at(now, "new-id".to_string());
    assert_eq!(app.get_entries().len(), 2);
    assert_eq!(app.get_entries()[1].id, "new-id");
    assert_eq!(app.get_entries()[1].timestamp, now);
    assert_eq!(app.get_entries()[1].frequency, 7_030_000);
}
