//! The full contact form, with the time of the contact filled in.
use vstd::prelude::*;
use chrono::{Datelike, Timelike};
use crate::numtext::{padded, push_padded, parse_fixed, parse_fixed_at};
use crate::record::{LogEntry, Timestamp, opt_text, pairs_text};
use crate::text::{char_count, chars_of, insert_char, remove_char, same_text, string_of};

verus! {

/// One labelled input line; `cursor_position` counts characters.
pub struct FormField {
    pub label: String,
    pub value: String,
    pub cursor_position: usize,
}

impl FormField {
    /// An empty field.
    pub fn new(label: &str) -> (r: FormField)
        ensures
            r.label@ == label@,
            r.value@ == Seq::<char>::empty(),
            r.cursor_position == 0,
    {
        FormField { label: label.to_string(), value: String::new(), cursor_position: 0 }
    }

    /// A field holding `value`, with the cursor after its last character.
    pub fn with_value(label: &str, value: String) -> (r: FormField)
        ensures
            r.label@ == label@,
            r.value@ == value@,
            r.cursor_position == value@.len(),
    {
        let cursor_position = char_count(&value);
        FormField { label: label.to_string(), value, cursor_position }
    }
}

/// Relies on chrono's `Utc::now` and its `Datelike` / `Timelike` getters, which give a
/// month in 1..=12, a day in 1..=31, an hour in 0..=23 and a minute and second in 0..=59.
#[verifier::external_body]
pub(crate) fn utc_now_parts() -> (r: (i32, u32, u32, u32, u32, u32))
    ensures
        1 <= r.1 <= 12,
        1 <= r.2 <= 31,
        r.3 < 24,
        r.4 < 60,
        r.5 < 60,
{
    let now = chrono::Utc::now();
    (now.year(), now.month(), now.day(), now.hour(), now.minute(), now.second())
}

/// `HH:MM`.
pub open spec fn clock_text(h: nat, m: nat) -> Seq<char> {
    padded(h, 2) + seq![':'] + padded(m, 2)
}

/// `YYYY-MM-DD`.
pub open spec fn date_text(y: nat, mo: nat, d: nat) -> Seq<char> {
    padded(y, 4) + seq!['-'] + padded(mo, 2) + seq!['-'] + padded(d, 2)
}

/// The labels of the contact form, in order.
pub open spec fn log_form_labels() -> Seq<Seq<char>> {
    seq![
        "Callsign"@,
        "Time UTC"@,
        "Date UTC"@,
        "RST Sent"@,
        "RST Rcvd"@,
        "Operator"@,
        "QTH"@,
        "State"@,
        "County"@,
        "Grid"@,
        "Freq"@,
        "Band"@,
        "Power"@,
        "Mode"@,
        "My Callsign"@,
        "My Grid"@,
        "Notes"@,
    ]
}

/// The value of the first field labelled `label`, unless that value is empty.
pub open spec fn form_value(fields: Seq<FormField>, label: Seq<char>) -> Option<Seq<char>>
    decreases fields.len(),
{
    if fields.len() == 0 {
        None
    } else if fields[0].label@ == label {
        if fields[0].value@.len() == 0 {
            None
        } else {
            Some(fields[0].value@)
        }
    } else {
        form_value(fields.drop_first(), label)
    }
}

/// The year, month, day, hour and minute that chrono reads from a `YYYY-MM-DD` date and
/// an `HH:MM` time, if it reads them.
pub uninterp spec fn form_instant_fields(date: Seq<char>, time: Seq<char>) -> Option<
    (int, int, int, int, int),
>;

/// Relies on chrono's `NaiveDateTime::parse_from_str` with `%Y-%m-%d %H:%M` on the date
/// and time joined by a space, and its getters: a month in 1..=12, a day in 1..=31, an
/// hour in 0..=23 and a minute in 0..=59.
#[verifier::external_body]
fn read_form_instant(date: &str, time: &str) -> (r: Option<(i32, u32, u32, u32, u32)>)
    ensures
        match r {
            Some(p) => form_instant_fields(date@, time@) == Some(
                (p.0 as int, p.1 as int, p.2 as int, p.3 as int, p.4 as int),
            ) && 1 <= p.1 <= 12 && 1 <= p.2 <= 31 && p.3 < 24 && p.4 < 60,
            None => form_instant_fields(date@, time@) is None,
        },
{
    chrono::NaiveDateTime::parse_from_str(&format!("{} {}", date, time), "%Y-%m-%d %H:%M")
        .ok()
        .map(|t| (t.year(), t.month(), t.day(), t.hour(), t.minute()))
}

/// Relies on `uuid::Uuid::new_v4`, a random id, written out by its `to_string`.
#[verifier::external_body]
pub(crate) fn new_entry_id() -> (r: String) {
    uuid::Uuid::new_v4().to_string()
}

/// The instant that date and time fields name, if it is valid: seconds are zero.
pub open spec fn form_instant(date: Seq<char>, time: Seq<char>) -> Option<Timestamp> {
    match form_instant_fields(date, time) {
        Some(p) => if 0 <= p.0 <= 9999 {
            let ts = Timestamp {
                year: p.0 as u16,
                month: p.1 as u8,
                day: p.2 as u8,
                hour: p.3 as u8,
                minute: p.4 as u8,
                second: 0,
            };
            if ts.valid() {
                Some(ts)
            } else {
                None
            }
        } else {
            None
        },
        None => None,
    }
}

/// Why the form does not describe a contact, if it does not: the first of a missing
/// callsign, a missing or unreadable frequency, an unreadable power, a missing date or
/// time, and a date and time that do not name a valid instant.
pub open spec fn form_problem(fields: Seq<FormField>) -> Option<Seq<char>> {
    if form_value(fields, "Callsign"@) is None {
        Some("Callsign is required"@)
    } else if form_value(fields, "Freq"@) is None {
        Some("Frequency is required"@)
    } else if parse_fixed(form_value(fields, "Freq"@)->0, 6) is None {
        Some("Invalid frequency format"@)
    } else if form_value(fields, "Power"@) matches Some(p) && parse_fixed(p, 3) is None {
        Some("Invalid power format"@)
    } else if form_value(fields, "Date UTC"@) is None {
        Some("Date is required"@)
    } else if form_value(fields, "Time UTC"@) is None {
        Some("Time is required"@)
    } else if form_instant(
        form_value(fields, "Date UTC"@)->0,
        form_value(fields, "Time UTC"@)->0,
    ) is None {
        Some("Invalid date/time format"@)
    } else {
        None
    }
}

/// The custom fields a form adds for what a record has no field of its own for.
pub open spec fn form_extras(fields: Seq<FormField>) -> Seq<(Seq<char>, Seq<char>)> {
    opt_pair("cnty"@, form_value(fields, "County"@)) + opt_pair(
        "station_callsign"@,
        form_value(fields, "My Callsign"@),
    ) + opt_pair("my_gridsquare"@, form_value(fields, "My Grid"@))
}

pub open spec fn opt_pair(k: Seq<char>, o: Option<Seq<char>>) -> Seq<(Seq<char>, Seq<char>)> {
    match o {
        Some(v) => seq![(k, v)],
        None => Seq::empty(),
    }
}

/// The contact form: a list of input lines, one of which has the focus.
pub struct LogForm {
    pub fields: Vec<FormField>,
    pub current_field: usize,
}

impl LogForm {
    /// At least one field, the focus on one of them, and every cursor within its text.
    pub open spec fn wf(&self) -> bool {
        &&& self.fields.len() > 0
        &&& self.current_field < self.fields.len()
        &&& forall|i: int|
            0 <= i < self.fields.len() ==> #[trigger] self.fields@[i].cursor_position
                <= self.fields@[i].value@.len()
    }

    /// The fields but `i` are unchanged.
    pub open spec fn others_kept(&self, old: &LogForm, i: int) -> bool {
        &&& self.fields.len() == old.fields.len()
        &&& self.current_field == old.current_field
        &&& forall|j: int| 0 <= j < self.fields.len() && j != i ==> self.fields@[j] == old.fields@[j]
    }

    /// The form of a new contact: time (`HH:MM`) and date (`YYYY-MM-DD`) of now in UTC,
    /// every other field empty, focus on the callsign. A year outside 0..=9999 leaves the
    /// date empty.
    pub fn new() -> (r: LogForm)
        ensures
            r.wf(),
            r.current_field == 0,
            r.fields.len() == log_form_labels().len(),
            forall|i: int|
                0 <= i < r.fields.len() ==> (#[trigger] r.fields@[i]).label@ == log_form_labels()[i]
                    && r.fields@[i].cursor_position == r.fields@[i].value@.len(),
            forall|i: int|
                0 <= i < r.fields.len() && i != 1 && i != 2 ==> (#[trigger] r.fields@[i]).value@
                    == Seq::<char>::empty(),
            exists|h: nat, m: nat| h < 24 && m < 60 && r.fields@[1].value@ == clock_text(h, m),
            r.fields@[2].value@.len() == 0 || exists|y: nat, mo: nat, d: nat|
                y <= 9999 && 1 <= mo <= 12 && 1 <= d <= 31 && r.fields@[2].value@ == date_text(
                    y,
                    mo,
                    d,
                ),
    {
        let (year, month, day, hour, minute, _) = utc_now_parts();
        let mut t: Vec<char> = Vec::new();
        push_padded(&mut t, hour as u64, 2);
        t.push(':');
        push_padded(&mut t, minute as u64, 2);
        assert(t@ =~= clock_text(hour as nat, minute as nat));
        let mut d: Vec<char> = Vec::new();
        if 0 <= year && year <= 9999 {
            push_padded(&mut d, year as u64, 4);
            d.push('-');
            push_padded(&mut d, month as u64, 2);
            d.push('-');
            push_padded(&mut d, day as u64, 2);
            assert(d@ =~= date_text(year as nat, month as nat, day as nat));
        }
        let mut fields: Vec<FormField> = Vec::new();
        fields.push(FormField::new("Callsign"));
        fields.push(FormField::with_value("Time UTC", string_of(&t)));
        fields.push(FormField::with_value("Date UTC", string_of(&d)));
        fields.push(FormField::new("RST Sent"));
        fields.push(FormField::new("RST Rcvd"));
        fields.push(FormField::new("Operator"));
        fields.push(FormField::new("QTH"));
        fields.push(FormField::new("State"));
        fields.push(FormField::new("County"));
        fields.push(FormField::new("Grid"));
        fields.push(FormField::new("Freq"));
        fields.push(FormField::new("Band"));
        fields.push(FormField::new("Power"));
        fields.push(FormField::new("Mode"));
        fields.push(FormField::new("My Callsign"));
        fields.push(FormField::new("My Grid"));
        fields.push(FormField::new("Notes"));
        LogForm { fields, current_field: 0 }
    }

    /// Moves the focus to the next field, from the last back to the first.
    pub fn next_field(&mut self)
        requires
            old(self).wf(),
        ensures
            final(self).wf(),
            final(self).fields == old(self).fields,
            final(self).current_field == (old(self).current_field + 1) % (old(
                self,
            ).fields.len() as int),
    {
        self.current_field = (self.current_field + 1) % self.fields.len();
    }

    /// Moves the focus to the previous field, from the first to the last.
    pub fn previous_field(&mut self)
        requires
            old(self).wf(),
        ensures
            final(self).wf(),
            final(self).fields == old(self).fields,
            final(self).current_field == if old(self).current_field == 0 {
                old(self).fields.len() - 1
            } else {
                old(self).current_field - 1
            },
    {
        if self.current_field == 0 {
            self.current_field = self.fields.len() - 1;
        } else {
            self.current_field = self.current_field - 1;
        }
    }

    fn replace_current(&mut self, value: String, cursor_position: usize)
        requires
            old(self).wf(),
            cursor_position <= value@.len(),
        ensures
            final(self).wf(),
            final(self).others_kept(old(self), old(self).current_field as int),
            final(self).fields@[old(self).current_field as int].label == old(
                self,
            ).fields@[old(self).current_field as int].label,
            final(self).fields@[old(self).current_field as int].value@ == value@,
            final(self).fields@[old(self).current_field as int].cursor_position
                == cursor_position,
    {
        let i = self.current_field;
        let f = FormField { label: self.fields[i].label.clone(), value, cursor_position };
        self.fields.set(i, f);
        assert forall|k: int| 0 <= k < self.fields.len() implies #[trigger] self.fields@[k].cursor_position
            <= self.fields@[k].value@.len() by {
            if k != i {
                assert(self.fields@[k] == old(self).fields@[k]);
            }
        }
    }

    /// Types `c` at the cursor of the focused field and moves the cursor past it.
    pub fn handle_input(&mut self, c: char)
        requires
            old(self).wf(),
        ensures
            final(self).wf(),
            ({
                let i = old(self).current_field as int;
                let f = old(self).fields@[i];
                &&& final(self).others_kept(old(self), i)
                &&& final(self).fields@[i].label == f.label
                &&& final(self).fields@[i].value@ == f.value@.insert(f.cursor_position as int, c)
                &&& final(self).fields@[i].cursor_position == f.cursor_position + 1
            }),
    {
        let i = self.current_field;
        let value = insert_char(&self.fields[i].value, self.fields[i].cursor_position, c);
        let cursor = self.fields[i].cursor_position + 1;
        self.replace_current(value, cursor);
    }

    /// Deletes the character before the cursor of the focused field, if any.
    pub fn handle_backspace(&mut self)
        requires
            old(self).wf(),
        ensures
            final(self).wf(),
            ({
                let i = old(self).current_field as int;
                let f = old(self).fields@[i];
                if f.cursor_position > 0 {
                    &&& final(self).others_kept(old(self), i)
                    &&& final(self).fields@[i].label == f.label
                    &&& final(self).fields@[i].value@ == f.value@.remove(f.cursor_position - 1)
                    &&& final(self).fields@[i].cursor_position == f.cursor_position - 1
                } else {
                    *final(self) == *old(self)
                }
            }),
    {
        let i = self.current_field;
        if self.fields[i].cursor_position > 0 {
            let pos = self.fields[i].cursor_position - 1;
            let value = remove_char(&self.fields[i].value, pos);
            self.replace_current(value, pos);
        }
    }

    /// Deletes the character at the cursor of the focused field, if any.
    pub fn handle_delete(&mut self)
        requires
            old(self).wf(),
        ensures
            final(self).wf(),
            ({
                let i = old(self).current_field as int;
                let f = old(self).fields@[i];
                if f.cursor_position < f.value@.len() {
                    &&& final(self).others_kept(old(self), i)
                    &&& final(self).fields@[i].label == f.label
                    &&& final(self).fields@[i].value@ == f.value@.remove(f.cursor_position as int)
                    &&& final(self).fields@[i].cursor_position == f.cursor_position
                } else {
                    *final(self) == *old(self)
                }
            }),
    {
        let i = self.current_field;
        let pos = self.fields[i].cursor_position;
        if pos < char_count(&self.fields[i].value) {
            let value = remove_char(&self.fields[i].value, pos);
            self.replace_current(value, pos);
        }
    }

    /// Moves the cursor of the focused field one character left, if it can.
    pub fn move_cursor_left(&mut self)
        requires
            old(self).wf(),
        ensures
            final(self).wf(),
            ({
                let i = old(self).current_field as int;
                let f = old(self).fields@[i];
                &&& final(self).others_kept(old(self), i)
                &&& final(self).fields@[i].label == f.label
                &&& final(self).fields@[i].value == f.value
                &&& final(self).fields@[i].cursor_position == if f.cursor_position > 0 {
                    f.cursor_position - 1
                } else {
                    f.cursor_position as int
                }
            }),
    {
        let i = self.current_field;
        if self.fields[i].cursor_position > 0 {
            self.set_cursor(self.fields[i].cursor_position - 1);
        } else {
            self.set_cursor(self.fields[i].cursor_position);
        }
    }

    /// Moves the cursor of the focused field one character right, if it can.
    pub fn move_cursor_right(&mut self)
        requires
            old(self).wf(),
        ensures
            final(self).wf(),
            ({
                let i = old(self).current_field as int;
                let f = old(self).fields@[i];
                &&& final(self).others_kept(old(self), i)
                &&& final(self).fields@[i].label == f.label
                &&& final(self).fields@[i].value == f.value
                &&& final(self).fields@[i].cursor_position == if f.cursor_position
                    < f.value@.len() {
                    f.cursor_position + 1
                } else {
                    f.cursor_position as int
                }
            }),
    {
        let i = self.current_field;
        if self.fields[i].cursor_position < char_count(&self.fields[i].value) {
            self.set_cursor(self.fields[i].cursor_position + 1);
        } else {
            self.set_cursor(self.fields[i].cursor_position);
        }
    }

    /// The value of the first field labelled `label`, unless that value is empty.
    fn get_field(&self, label: &str) -> (r: Option<String>)
        ensures
            opt_text(r) == form_value(self.fields@, label@),
    {
        let mut i: usize = 0;
        assert(self.fields@.subrange(0, self.fields.len() as int) =~= self.fields@);
        while i < self.fields.len()
            invariant
                i <= self.fields.len(),
                form_value(self.fields@.subrange(i as int, self.fields.len() as int), label@)
                    == form_value(self.fields@, label@),
            decreases self.fields.len() - i,
        {
            let ghost rest = self.fields@.subrange(i as int, self.fields.len() as int);
            assert(rest.drop_first() =~= self.fields@.subrange(i + 1, self.fields.len() as int));
            assert(rest[0] == self.fields@[i as int]);
            let label_here = self.fields[i].label.as_str();
            if same_text(label_here, label) {
                if char_count(&self.fields[i].value) == 0 {
                    return None;
                }
                return Some(self.fields[i].value.clone());
            }
            i = i + 1;
        }
        None
    }

    /// The record this form describes, with a fresh random id; or why it describes none,
    /// as `form_problem` says. The frequency is read in MHz, the power in watts; county,
    /// own callsign and own grid go to the custom fields.
    pub fn to_log_entry(&self) -> (r: Result<LogEntry, String>)
        ensures
            match r {
                Err(m) => form_problem(self.fields@) == Some(m@),
                Ok(e) => {
                    let f = self.fields@;
                    &&& form_problem(f) is None
                    &&& Some(e.callsign@) == form_value(f, "Callsign"@)
                    &&& parse_fixed(form_value(f, "Freq"@)->0, 6) == Some(e.frequency as nat)
                    &&& e.power == match form_value(f, "Power"@) {
                        Some(p) => Some(parse_fixed(p, 3)->0 as u64),
                        None => None,
                    }
                    &&& form_instant(form_value(f, "Date UTC"@)->0, form_value(f, "Time UTC"@)->0)
                        == Some(e.timestamp)
                    &&& e.mode@ == match form_value(f, "Mode"@) {
                        Some(m) => m,
                        None => Seq::<char>::empty(),
                    }
                    &&& opt_text(e.rst_sent) == form_value(f, "RST Sent"@)
                    &&& opt_text(e.rst_received) == form_value(f, "RST Rcvd"@)
                    &&& opt_text(e.operator) == form_value(f, "Operator"@)
                    &&& opt_text(e.qth) == form_value(f, "QTH"@)
                    &&& opt_text(e.state) == form_value(f, "State"@)
                    &&& opt_text(e.grid) == form_value(f, "Grid"@)
                    &&& opt_text(e.band) == form_value(f, "Band"@)
                    &&& opt_text(e.notes) == form_value(f, "Notes"@)
                    &&& e.name is None && e.country is None && e.dxcc is None
                    &&& pairs_text(e.custom_fields@) == form_extras(f)
                },
            },
    {
        let callsign = match self.get_field("Callsign") {
            Some(c) => c,
            None => {
                return Err("Callsign is required".to_string());
            },
        };
        let freq_text = match self.get_field("Freq") {
            Some(t) => t,
            None => {
                return Err("Frequency is required".to_string());
            },
        };
        let fv = chars_of(freq_text.as_str());
        assert(fv@.subrange(0, fv.len() as int) =~= fv@);
        let frequency = match parse_fixed_at(&fv, 0, fv.len(), 6) {
            Some(f) => f,
            None => {
                return Err("Invalid frequency format".to_string());
            },
        };
        let power = match self.get_field("Power") {
            Some(p) => {
                let pv = chars_of(p.as_str());
                assert(pv@.subrange(0, pv.len() as int) =~= pv@);
                match parse_fixed_at(&pv, 0, pv.len(), 3) {
                    Some(w) => Some(w),
                    None => {
                        return Err("Invalid power format".to_string());
                    },
                }
            },
            None => None,
        };
        let date = match self.get_field("Date UTC") {
            Some(d) => d,
            None => {
                return Err("Date is required".to_string());
            },
        };
        let time = match self.get_field("Time UTC") {
            Some(t) => t,
            None => {
                return Err("Time is required".to_string());
            },
        };
        let timestamp = match read_form_instant(date.as_str(), time.as_str()) {
            Some((y, mo, d, h, mi)) => {
                let ts = Timestamp {
                    year: if 0 <= y && y <= 9999 { y as u16 } else { 0 },
                    month: mo as u8,
                    day: d as u8,
                    hour: h as u8,
                    minute: mi as u8,
                    second: 0,
                };
                if 0 <= y && y <= 9999 && ts.is_valid() {
                    ts
                } else {
                    return Err("Invalid date/time format".to_string());
                }
            },
            None => {
                return Err("Invalid date/time format".to_string());
            },
        };
        let mode = match self.get_field("Mode") {
            Some(m) => m,
            None => String::new(),
        };
        let mut custom_fields: Vec<(String, String)> = Vec::new();
        let ghost mut extras: Seq<(Seq<char>, Seq<char>)> = Seq::empty();
        let county = self.get_field("County");
        if let Some(v) = county {
            custom_fields.push(("cnty".to_string(), v));
        }
        proof {
            extras = opt_pair("cnty"@, form_value(self.fields@, "County"@));
            assert(pairs_text(custom_fields@) =~= extras);
        }
        let own_call = self.get_field("My Callsign");
        let ghost before = custom_fields@;
        if let Some(v) = own_call {
            custom_fields.push(("station_callsign".to_string(), v));
        }
        proof {
            extras = extras + opt_pair("station_callsign"@, form_value(self.fields@, "My Callsign"@));
            assert(pairs_text(custom_fields@) =~= extras);
        }
        let own_grid = self.get_field("My Grid");
        if let Some(v) = own_grid {
            custom_fields.push(("my_gridsquare".to_string(), v));
        }
        proof {
            extras = extras + opt_pair("my_gridsquare"@, form_value(self.fields@, "My Grid"@));
            assert(pairs_text(custom_fields@) =~= extras);
        }
        Ok(LogEntry {
            id: new_entry_id(),
            timestamp,
            callsign,
            frequency,
            mode,
            rst_sent: self.get_field("RST Sent"),
            rst_received: self.get_field("RST Rcvd"),
            notes: self.get_field("Notes"),
            name: None,
            qth: self.get_field("QTH"),
            state: self.get_field("State"),
            country: None,
            dxcc: None,
            band: self.get_field("Band"),
            operator: self.get_field("Operator"),
            grid: self.get_field("Grid"),
            power,
            custom_fields,
        })
    }

    fn set_cursor(&mut self, cursor_position: usize)
        requires
            old(self).wf(),
            cursor_position <= old(self).fields@[old(self).current_field as int].value@.len(),
        ensures
            final(self).wf(),
            final(self).others_kept(old(self), old(self).current_field as int),
            final(self).fields@[old(self).current_field as int].label == old(
                self,
            ).fields@[old(self).current_field as int].label,
            final(self).fields@[old(self).current_field as int].value == old(
                self,
            ).fields@[old(self).current_field as int].value,
            final(self).fields@[old(self).current_field as int].cursor_position
                == cursor_position,
    {
        let i = self.current_field;
        let f = FormField {
            label: self.fields[i].label.clone(),
            value: self.fields[i].value.clone(),
            cursor_position,
        };
        self.fields.set(i, f);
        assert forall|k: int| 0 <= k < self.fields.len() implies #[trigger] self.fields@[k].cursor_position
            <= self.fields@[k].value@.len() by {
            if k != i {
                assert(self.fields@[k] == old(self).fields@[k]);
            }
        }
    }
}

} // verus!
