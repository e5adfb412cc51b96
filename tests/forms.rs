use amlog::app::form::Form;
use amlog::form::{FormField, LogForm};

#[test]
fn test_form_validation() {
    let mut form = Form::new();
    assert!(!form.is_valid());

    // Fill required fields
    form.fields[0].value = "W1AW".to_string();
    form.fields[1].value = "14.074".to_string();
    form.fields[2].value = "FT8".to_string();

    assert!(form.is_valid());
}

#[test]
fn form_blank_required_field_is_invalid() {
    let mut form = Form::new();
    form.fields[0].value = "W1AW".to_string();
    form.fields[1].value = "14.074".to_string();
    form.fields[2].value = " \t ".to_string();
    assert!(!form.is_valid());
    form.fields[3].value = String::new();
    form.fields[2].value = " SSB ".to_string();
    assert!(form.is_valid());
}

#[test]
fn form_typing_and_backspace() {
    let mut form = Form::new();
    form.input('W');
    form.input('1');
    form.input('A');
    assert_eq!(form.fields[0].value, "W1A");
    assert_eq!(form.fields[0].cursor_position, 3);
    form.backspace();
    assert_eq!(form.fields[0].value, "W1");
    assert_eq!(form.fields[0].cursor_position, 2);
    form.next_field();
    assert_eq!(form.current_field, 1);
    form.backspace();
    assert_eq!(form.fields[1].value, "");
    form.previous_field();
    form.previous_field();
    assert_eq!(form.current_field, 5);
    form.next_field();
    assert_eq!(form.current_field, 0);
    form.reset();
    assert_eq!(form.fields[0].value, "");
    assert_eq!(form.fields[0].label, "Callsign");
    assert!(form.fields[2].required);
    assert!(!form.fields[3].required);
}

#[test]
fn log_form_layout() {
    let form = LogForm::new();
    assert_eq!(form.fields.len(), 17);
    assert_eq!(form.fields[0].label, "Callsign");
    assert_eq!(form.fields[10].label, "Freq");
    assert_eq!(form.fields[16].label, "Notes");
    let time = &form.fields[1].value;
    assert_eq!(time.len(), 5);
    assert_eq!(&time[2..3], ":");
    let date = &form.fields[2].value;
    assert_eq!(date.len(), 10);
    assert_eq!(&date[4..5], "-");
    assert_eq!(form.fields[2].cursor_position, 10);
}

#[test]
fn log_form_cursor_editing() {
    let mut form = LogForm::new();
    form.handle_input('K');
    form.handle_input('1');
    form.move_cursor_left();
    form.handle_input('é');
    assert_eq!(form.fields[0].value, "Ké1");
    assert_eq!(form.fields[0].cursor_position, 2);
    form.handle_delete();
    assert_eq!(form.fields[0].value, "Ké");
    form.handle_delete();
    assert_eq!(form.fields[0].value, "Ké");
    form.move_cursor_right();
    assert_eq!(form.fields[0].cursor_position, 2);
    form.handle_backspace();
    assert_eq!(form.fields[0].value, "K");
    form.move_cursor_left();
    form.move_cursor_left();
    assert_eq!(form.fields[0].cursor_position, 0);
    form.handle_backspace();
    assert_eq!(form.fields[0].value, "K");
    form.previous_field();
    assert_eq!(form.current_field, 16);
    form.next_field();
    assert_eq!(form.current_field, 0);
}

#[test]
fn form_field_constructors() {
    let f = FormField::new("Band");
    assert_eq!(f.label, "Band");
    assert_eq!(f.value, "");
    assert_eq!(f.cursor_position, 0);
    let g = FormField::with_value("QTH", "Zürich".to_string());
    assert_eq!(g.value, "Zürich");
    assert_eq!(g.cursor_position, 6);
}

fn filled_form() -> LogForm {
    let mut form = LogForm::new();
    form.fields[0].value = "W1AW".to_string();
    form.fields[1].value = "14:05".to_string();
    form.fields[2].value = "2024-03-09".to_string();
    form.fields[8].value = "Hartford".to_string();
    form.fields[10].value = "14.074".to_string();
    form.fields[12].value = "5".to_string();
    form.fields[13].value = "FT8".to_string();
    form
}

#[test]
fn log_form_to_entry() {
    let form = filled_form();
    let e = form.to_log_entry().unwrap();
    assert_eq!(e.callsign, "W1AW");
    assert_eq!(e.frequency, 14_074_000);
    assert_eq!(e.power, Some(5_000));
    assert_eq!(e.mode, "FT8");
    assert_eq!(e.timestamp.year, 2024);
    assert_eq!(e.timestamp.hour, 14);
    assert_eq!(e.timestamp.minute, 5);
    assert_eq!(e.timestamp.second, 0);
    assert_eq!(e.rst_sent, None);
    assert_eq!(e.custom_fields, vec![("cnty".to_string(), "Hartford".to_string())]);
    assert_eq!(e.id.len(), 36);
}

#[test]
fn log_form_problems() {
    let mut form = filled_form();
    form.fields[0].value = String::new();
    assert_eq!(form.to_log_entry(), Err("Callsign is required".to_string()));
    let mut form = filled_form();
    form.fields[10].value = "fourteen".to_string();
    assert_eq!(form.to_log_entry(), Err("Invalid frequency format".to_string()));
    let mut form = filled_form();
    form.fields[10].value = String::new();
    assert_eq!(form.to_log_entry(), Err("Frequency is required".to_string()));
    let mut form = filled_form();
    form.fields[12].value = "5W".to_string();
    assert_eq!(form.to_log_entry(), Err("Invalid power format".to_string()));
    let mut form = filled_form();
    form.fields[2].value = "2024-02-30".to_string();
    assert_eq!(form.to_log_entry(), Err("Invalid date/time format".to_string()));
    let mut form = filled_form();
    form.fields[1].value = String::new();
    assert_eq!(form.to_log_entry(), Err("Time is required".to_string()));
}

#[test]
fn form_reset_of_an_empty_form() {
    let mut form = Form::new();
    form.fields.clear();
    form.current_field = 3;
    form.reset();
    assert!(form.fields.is_empty());
    assert_eq!(form.current_field, 0);
}
