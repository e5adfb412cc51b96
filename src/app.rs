//! Interaction state of the logging screen: its modes, the entry form, the list of
//! contacts with its selection, and the buffer of deleted contacts that can be restored.
use vstd::prelude::*;

pub mod form;

use crate::StorageFormat;
use crate::error::StorageError;
use crate::form::{new_entry_id, utc_now_parts};
use crate::manager::{StorageManager, load_refused, load_refused_any};
use crate::numtext::{fixed_text, parse_fixed, parse_fixed_at, push_fixed};
use crate::record::{EntryView, LogEntry, Timestamp, entries_view, opt_text};
use crate::adif::decode;
use crate::adif::keys_unique;
use crate::store::{all_keys_unique, has_id, remove_id, upsert, upsert_all};
use crate::text::{chars_of, join_text, string_of};
use form::Form;

verus! {

/// What the keyboard currently drives: the log list, a new entry, or an edit.
#[derive(Clone, Copy, Debug, PartialEq, Eq, Structural)]
pub enum AppMode {
    Normal,
    NewEntry,
    Edit,
}

/// A deleted contact, where it stood in the list, and when it was deleted (if the clock
/// could be read).
pub struct DeletedEntry {
    pub entry: LogEntry,
    pub index: usize,
    pub timestamp: Option<Timestamp>,
}

/// The state of the logging screen over one log.
pub struct App {
    pub mode: AppMode,
    pub form: Form,
    /// The status line and whether it reports an error.
    pub status_message: Option<(String, bool)>,
    entries: Vec<LogEntry>,
    storage_manager: StorageManager,
    selected_index: Option<usize>,
    pub deleted_entries: Vec<DeletedEntry>,
    editing_index: Option<usize>,
}

/// The status line shows `m`, flagged as an error or not.
pub open spec fn shows(s: Option<(String, bool)>, m: Seq<char>, error: bool) -> bool {
    s matches Some(p) && p.0@ == m && p.1 == error
}

/// The frequency typed in the form, in hertz, if it reads as MHz.
pub open spec fn typed_frequency(f: Form) -> Option<nat> {
    parse_fixed(f.fields@[1].value@, 6)
}

/// The record a saved form describes, apart from its id and instant.
pub open spec fn matches_form(e: EntryView, f: Form) -> bool {
    &&& e.callsign == f.fields@[0].value@
    &&& typed_frequency(f) == Some(e.frequency as nat)
    &&& e.mode == f.fields@[2].value@
    &&& e.rst_sent == Some(f.fields@[3].value@)
    &&& e.rst_received == Some(f.fields@[4].value@)
    &&& e.notes == Some(f.fields@[5].value@)
    &&& e.name is None && e.qth is None && e.state is None && e.country is None
    &&& e.dxcc is None && e.band is None && e.operator is None && e.grid is None
    &&& e.power is None && e.custom_fields.len() == 0
}

impl App {
    /// The contacts shown, in order.
    pub closed spec fn spec_entries(&self) -> Seq<EntryView> {
        entries_view(self.entries@)
    }

    /// The log kept by the storage manager.
    pub closed spec fn spec_store(&self) -> Seq<EntryView> {
        self.storage_manager@
    }

    pub closed spec fn spec_mode(&self) -> AppMode {
        self.mode
    }

    pub closed spec fn spec_form(&self) -> Form {
        self.form
    }

    pub closed spec fn spec_status(&self) -> Option<(String, bool)> {
        self.status_message
    }

    pub closed spec fn spec_deleted(&self) -> Seq<DeletedEntry> {
        self.deleted_entries@
    }

    pub closed spec fn spec_selected(&self) -> Option<usize> {
        self.selected_index
    }

    pub closed spec fn spec_editing(&self) -> Option<usize> {
        self.editing_index
    }

    pub closed spec fn spec_manager(&self) -> StorageManager {
        self.storage_manager
    }

    /// A form of six fields, a consistent log, and a selection inside the list.
    pub closed spec fn wf(&self) -> bool {
        &&& self.form.wf()
        &&& self.form.fields.len() == 6
        &&& self.storage_manager.wf()
        &&& (self.selected_index matches Some(i) ==> i < self.entries.len())
        &&& (self.editing_index matches Some(i) ==> i < self.entries.len())
        &&& all_keys_unique(entries_view(self.entries@))
        &&& forall|k: int|
            0 <= k < self.deleted_entries.len() ==> keys_unique(
                #[trigger] self.deleted_entries@[k].entry@.custom_fields,
            )
    }

    /// Everything but the status line is as in `old`.
    pub closed spec fn same_but_status(&self, old: &App) -> bool {
        &&& self.mode == old.mode
        &&& self.form == old.form
        &&& self.deleted_entries == old.deleted_entries
        &&& self.spec_entries() == old.spec_entries()
        &&& self.spec_store() == old.spec_store()
        &&& self.spec_manager().spec_format() == old.spec_manager().spec_format()
        &&& self.spec_manager().spec_path() == old.spec_manager().spec_path()
        &&& self.spec_selected() == old.spec_selected()
        &&& self.spec_editing() == old.spec_editing()
    }

    /// The log and the list are as in `old`.
    pub closed spec fn same_log(&self, old: &App) -> bool {
        &&& self.spec_entries() == old.spec_entries()
        &&& self.spec_store() == old.spec_store()
        &&& self.spec_manager().spec_format() == old.spec_manager().spec_format()
        &&& self.spec_manager().spec_path() == old.spec_manager().spec_path()
        &&& self.deleted_entries == old.deleted_entries
        &&& self.spec_selected() == old.spec_selected()
    }

    /// The screen over the log that `storage_manager` holds, listing its contacts.
    pub fn new(storage_manager: StorageManager) -> (r: App)
        requires
            storage_manager.wf(),
        ensures
            r.wf(),
            r.spec_mode() == AppMode::Normal,
            shows(r.spec_status(), "amlog"@, false),
            r.spec_entries() == storage_manager@,
            r.spec_manager() == storage_manager,
            r.spec_selected() is None,
            r.spec_editing() is None,
            r.spec_deleted().len() == 0,
    {
        let entries = storage_manager.list_entries();
        proof {
            storage_manager.lemma_wf();
        }
        App {
            mode: AppMode::Normal,
            form: Form::new(),
            status_message: Some(("amlog".to_string(), false)),
            entries,
            storage_manager,
            selected_index: None,
            deleted_entries: Vec::new(),
            editing_index: None,
        }
    }

    /// The storage manager, for writing the log to its medium.
    pub fn storage(&self) -> (r: &StorageManager)
        ensures
            *r == self.spec_manager(),
            r@ == self.spec_store(),
            self.wf() ==> r.wf(),
    {
        &self.storage_manager
    }

    pub fn set_status(&mut self, message: &str)
        ensures
            shows(final(self).spec_status(), message@, false),
            final(self).same_but_status(old(self)),
            old(self).wf() ==> final(self).wf(),
    {
        self.status_message = Some((message.to_string(), false));
    }

    pub fn set_error(&mut self, message: &str)
        ensures
            shows(final(self).spec_status(), message@, true),
            final(self).same_but_status(old(self)),
            old(self).wf() ==> final(self).wf(),
    {
        self.status_message = Some((message.to_string(), true));
    }

    pub fn clear_status(&mut self)
        ensures
            final(self).spec_status() is None,
            final(self).same_but_status(old(self)),
            old(self).wf() ==> final(self).wf(),
    {
        self.status_message = None;
    }

    pub fn enter_edit_mode(&mut self)
        ensures
            final(self).spec_mode() == AppMode::Edit,
            final(self).spec_form() == old(self).spec_form(),
            final(self).spec_status() == old(self).spec_status(),
            final(self).spec_editing() == old(self).spec_editing(),
            final(self).same_log(old(self)),
            old(self).wf() ==> final(self).wf(),
    {
        self.mode = AppMode::Edit;
    }

    /// Starts a new contact on an empty form.
    pub fn enter_new_mode(&mut self)
        requires
            old(self).wf(),
        ensures
            final(self).wf(),
            final(self).spec_mode() == AppMode::NewEntry,
            final(self).spec_form().cleared(&old(self).spec_form()),
            final(self).spec_status() == old(self).spec_status(),
            final(self).spec_editing() is None,
            final(self).same_log(old(self)),
    {
        self.mode = AppMode::NewEntry;
        self.form.reset();
        self.editing_index = None;
    }

    /// Back to the list: empty form, no status, nothing being edited.
    pub fn enter_normal_mode(&mut self)
        requires
            old(self).wf(),
        ensures
            final(self).wf(),
            final(self).spec_mode() == AppMode::Normal,
            final(self).spec_form().cleared(&old(self).spec_form()),
            final(self).spec_status() is None,
            final(self).spec_editing() is None,
            final(self).same_log(old(self)),
    {
        self.mode = AppMode::Normal;
        self.form.reset();
        self.clear_status();
        self.editing_index = None;
    }

    pub fn handle_input(&mut self, c: char)
        requires
            old(self).wf(),
        ensures
            final(self).wf(),
            final(self).spec_form().typed(&old(self).spec_form(), c),
            final(self).spec_mode() == old(self).spec_mode(),
            final(self).spec_status() == old(self).spec_status(),
            final(self).spec_editing() == old(self).spec_editing(),
            final(self).same_log(old(self)),
    {
        self.form.input(c);
    }

    pub fn handle_backspace(&mut self)
        requires
            old(self).wf(),
        ensures
            final(self).wf(),
            final(self).spec_form().erased(&old(self).spec_form()),
            final(self).spec_mode() == old(self).spec_mode(),
            final(self).spec_status() == old(self).spec_status(),
            final(self).spec_editing() == old(self).spec_editing(),
            final(self).same_log(old(self)),
    {
        self.form.backspace();
    }

    pub fn next_field(&mut self)
        requires
            old(self).wf(),
        ensures
            final(self).wf(),
            final(self).spec_form().fields == old(self).spec_form().fields,
            final(self).spec_form().current_field == (old(self).spec_form().current_field + 1) % 6,
            final(self).spec_mode() == old(self).spec_mode(),
            final(self).spec_status() == old(self).spec_status(),
            final(self).spec_editing() == old(self).spec_editing(),
            final(self).same_log(old(self)),
    {
        self.form.next_field();
    }

    pub fn previous_field(&mut self)
        requires
            old(self).wf(),
        ensures
            final(self).wf(),
            final(self).spec_form().fields == old(self).spec_form().fields,
            final(self).spec_form().current_field == if old(self).spec_form().current_field == 0 {
                5
            } else {
                old(self).spec_form().current_field - 1
            },
            final(self).spec_mode() == old(self).spec_mode(),
            final(self).spec_status() == old(self).spec_status(),
            final(self).spec_editing() == old(self).spec_editing(),
            final(self).same_log(old(self)),
    {
        self.form.previous_field();
    }

    /// The contacts shown, in order.
    pub fn get_entries(&self) -> (r: &Vec<LogEntry>)
        ensures
            entries_view(r@) == self.spec_entries(),
    {
        &self.entries
    }

    /// Selects the next contact, from the last back to the first; the first if none is
    /// selected.
    pub fn select_next(&mut self)
        requires
            old(self).wf(),
        ensures
            final(self).wf(),
            final(self).spec_selected() == if old(self).spec_entries().len() == 0 {
                old(self).spec_selected()
            } else {
                match old(self).spec_selected() {
                    Some(i) => if i + 1 < old(self).spec_entries().len() {
                        Some((i + 1) as usize)
                    } else {
                        Some(0usize)
                    },
                    None => Some(0usize),
                }
            },
            final(self).spec_mode() == old(self).spec_mode() && final(self).spec_form() == old(self).spec_form(),
            final(self).spec_entries() == old(self).spec_entries(),
            final(self).spec_manager() == old(self).spec_manager(),
    {
        let len = self.entries.len();
        if len == 0 {
            return;
        }
        self.selected_index = Some(
            match self.selected_index {
                Some(i) => if i + 1 < len {
                    i + 1
                } else {
                    0
                },
                None => 0,
            },
        );
    }

    /// Selects the previous contact, from the first to the last; the last if none is
    /// selected.
    pub fn select_previous(&mut self)
        requires
            old(self).wf(),
        ensures
            final(self).wf(),
            final(self).spec_selected() == if old(self).spec_entries().len() == 0 {
                old(self).spec_selected()
            } else {
                match old(self).spec_selected() {
                    Some(i) => if i == 0 {
                        Some((old(self).spec_entries().len() - 1) as usize)
                    } else {
                        Some((i - 1) as usize)
                    },
                    None => Some((old(self).spec_entries().len() - 1) as usize),
                }
            },
            final(self).spec_mode() == old(self).spec_mode() && final(self).spec_form() == old(self).spec_form(),
            final(self).spec_entries() == old(self).spec_entries(),
            final(self).spec_manager() == old(self).spec_manager(),
    {
        let len = self.entries.len();
        if len == 0 {
            return;
        }
        self.selected_index = Some(
            match self.selected_index {
                Some(i) => if i == 0 {
                    len - 1
                } else {
                    i - 1
                },
                None => len - 1,
            },
        );
    }

    /// The selected contact, if any.
    pub fn get_selected_entry(&self) -> (r: Option<&LogEntry>)
        requires
            self.wf(),
        ensures
            match r {
                Some(e) => self.spec_selected() matches Some(i) && e@ == self.spec_entries()[i as int],
                None => self.spec_selected() is None,
            },
    {
        match self.selected_index {
            Some(i) => Some(&self.entries[i]),
            None => None,
        }
    }

    pub fn selected_index(&self) -> (r: Option<usize>)
        ensures
            r == self.spec_selected(),
    {
        self.selected_index
    }
}

/// `f` is `o` after saving its form as the contact `e`.
pub open spec fn saved_as(f: App, o: App, e: EntryView) -> bool {
    &&& matches_form(e, o.spec_form())
    &&& f.spec_mode() == AppMode::Normal
    &&& f.spec_form().cleared(&o.spec_form())
    &&& f.spec_editing() is None
    &&& f.spec_deleted() == o.spec_deleted()
    &&& f.spec_selected() == o.spec_selected()
    &&& if o.spec_mode() == AppMode::Edit {
        let idx = o.spec_editing()->0;
        &&& f.spec_store() == upsert(o.spec_store(), e)
        &&& shows(f.spec_status(), "Entry updated successfully"@, false)
        &&& if idx < o.spec_entries().len() {
            &&& e.id == o.spec_entries()[idx as int].id
            &&& e.timestamp == o.spec_entries()[idx as int].timestamp
            &&& f.spec_entries() == o.spec_entries().update(idx as int, e)
        } else {
            f.spec_entries() == o.spec_entries()
        }
    } else {
        &&& !has_id(o.spec_store(), e.id)
        &&& f.spec_store() == o.spec_store().push(e)
        &&& f.spec_entries() == o.spec_entries().push(e)
        &&& shows(f.spec_status(), "Entry saved successfully"@, false)
    }
}

/// The current UTC instant, if the clock reads as one with a four-digit year.
fn now_stamp() -> (r: Option<Timestamp>)
    ensures
        r matches Some(t) ==> t.valid(),
{
    let (y, mo, d, h, mi, s) = utc_now_parts();
    if 0 <= y && y <= 9999 {
        let ts = Timestamp {
            year: y as u16,
            month: mo as u8,
            day: d as u8,
            hour: h as u8,
            minute: mi as u8,
            second: s as u8,
        };
        if ts.is_valid() {
            Some(ts)
        } else {
            None
        }
    } else {
        None
    }
}

/// `Some(v)` as text, or the empty text.
fn text_or_empty(o: &Option<String>) -> (r: String)
    ensures
        r@ == match opt_text(*o) {
            Some(v) => v,
            None => Seq::<char>::empty(),
        },
{
    match o {
        Some(v) => v.clone(),
        None => String::new(),
    }
}

/// The record a form describes, with the given id and instant.
pub open spec fn form_entry(f: Form, id: Seq<char>, ts: Timestamp) -> EntryView {
    EntryView {
        id,
        timestamp: ts,
        callsign: f.fields@[0].value@,
        frequency: typed_frequency(f)->0 as u64,
        mode: f.fields@[2].value@,
        rst_sent: Some(f.fields@[3].value@),
        rst_received: Some(f.fields@[4].value@),
        notes: Some(f.fields@[5].value@),
        name: None,
        qth: None,
        state: None,
        country: None,
        dxcc: None,
        band: None,
        operator: None,
        grid: None,
        power: None,
        custom_fields: Seq::empty(),
    }
}

/// The record an edit of `o` stores: the form, with the edited record's id and instant.
pub open spec fn edited_entry(o: App) -> EntryView {
    let i = o.spec_editing()->0 as int;
    form_entry(o.spec_form(), o.spec_entries()[i].id, o.spec_entries()[i].timestamp)
}

/// The record saving the form of `o` stores: over an edited record, with that record's id
/// and instant; else with the id and instant given.
pub open spec fn saved_entry(o: App, now: Timestamp, id: Seq<char>) -> EntryView {
    if o.spec_mode() == AppMode::Edit && o.spec_editing() is Some {
        edited_entry(o)
    } else {
        form_entry(o.spec_form(), id, now)
    }
}

impl App {
    /// Saves the form with `now` and `id` for a new record: as a new contact, or, when
    /// editing, over the edited contact, keeping its id and instant. The frequency is read
    /// in MHz; on success the form is emptied and the screen goes back to the list.
    pub fn save_form_at(&mut self, now: Timestamp, id: String)
        requires
            old(self).wf(),
        ensures
            final(self).wf(),
            ({
                let o = *old(self);
                let f = *final(self);
                if typed_frequency(o.spec_form()) is None {
                    shows(f.spec_status(), "Invalid frequency format"@, true) && f.same_but_status(&o)
                } else if o.spec_mode() == AppMode::Edit && o.spec_editing() is None {
                    shows(f.spec_status(), "No entry selected for editing"@, true)
                        && f.same_but_status(&o)
                } else if o.spec_mode() != AppMode::Edit && has_id(o.spec_store(), id@) {
                    shows(f.spec_status(), "Failed to save entry: "@ + "Entry already exists"@, true)
                        && f.same_but_status(&o)
                } else {
                    saved_as(f, o, saved_entry(o, now, id@))
                }
            }),
    {
        let fv = chars_of(self.form.fields[1].value.as_str());
        assert(fv@.subrange(0, fv.len() as int) =~= fv@);
        let frequency = match parse_fixed_at(&fv, 0, fv.len(), 6) {
            Some(f) => f,
            None => {
                self.set_error("Invalid frequency format");
                return;
            },
        };
        if self.mode == AppMode::Edit && self.editing_index.is_none() {
            self.set_error("No entry selected for editing");
            return;
        }
        let mut entry = LogEntry {
            id,
            timestamp: now,
            callsign: self.form.fields[0].value.clone(),
            frequency,
            mode: self.form.fields[2].value.clone(),
            rst_sent: Some(self.form.fields[3].value.clone()),
            rst_received: Some(self.form.fields[4].value.clone()),
            notes: Some(self.form.fields[5].value.clone()),
            name: None,
            qth: None,
            state: None,
            country: None,
            dxcc: None,
            band: None,
            operator: None,
            grid: None,
            power: None,
            custom_fields: Vec::new(),
        };
        assert(entry@.custom_fields =~= Seq::<(Seq<char>, Seq<char>)>::empty());
        let ghost o = *self;
        if self.mode == AppMode::Edit {
            let idx = match self.editing_index {
                Some(i) => i,
                None => {
                    return;
                },
            };
            entry.id = self.entries[idx].id.clone();
            entry.timestamp = self.entries[idx].timestamp;
            assert(entry@ == saved_entry(o, now, id@));
            let kept = entry.duplicate();
            let _ = self.storage_manager.save_entry(kept);
            self.entries.set(idx, entry);
            assert(entries_view(self.entries@) =~= entries_view(o.entries@).update(
                idx as int,
                entry@,
            ));
            assert(all_keys_unique(entries_view(self.entries@))) by {
                assert forall|k: int| 0 <= k < self.entries.len() implies keys_unique(
                    #[trigger] entries_view(self.entries@)[k].custom_fields,
                ) by {
                    if k != idx {
                        assert(entries_view(self.entries@)[k] == entries_view(o.entries@)[k]);
                    }
                }
            }
            self.set_status("Entry updated successfully");
            self.editing_index = None;
            self.form.reset();
            self.mode = AppMode::Normal;
            assert(saved_as(*self, o, entry@));
        } else {
            assert(entry@ == saved_entry(o, now, id@));
            let kept = entry.duplicate();
            match self.storage_manager.add_entry(kept) {
                Ok(()) => {
                    self.entries.push(entry);
                    assert(entries_view(self.entries@) =~= entries_view(o.entries@).push(entry@));
                    assert(all_keys_unique(entries_view(self.entries@))) by {
                        assert forall|k: int| 0 <= k < self.entries.len() implies keys_unique(
                            #[trigger] entries_view(self.entries@)[k].custom_fields,
                        ) by {
                            if k < o.entries.len() {
                                assert(entries_view(self.entries@)[k] == entries_view(o.entries@)[k]);
                            }
                        }
                    }
                    self.set_status("Entry saved successfully");
                    self.editing_index = None;
                    self.form.reset();
                    self.mode = AppMode::Normal;
                    assert(saved_as(*self, o, entry@));
                },
                Err(e) => {
                    let message = join_text("Failed to save entry: ", e.describe().as_str());
                    self.status_message = Some((message, true));
                },
            }
        }
    }

    /// Saves the form: a new contact gets a fresh random id and the current instant, an
    /// edited contact keeps its own, so an edit needs no clock and always succeeds.
    pub fn save_entry(&mut self)
        requires
            old(self).wf(),
        ensures
            final(self).wf(),
            ({
                let o = *old(self);
                let f = *final(self);
                if typed_frequency(o.spec_form()) is None {
                    shows(f.spec_status(), "Invalid frequency format"@, true) && f.same_but_status(&o)
                } else if o.spec_mode() == AppMode::Edit {
                    if o.spec_editing() is None {
                        shows(f.spec_status(), "No entry selected for editing"@, true)
                            && f.same_but_status(&o)
                    } else {
                        saved_as(f, o, edited_entry(o))
                    }
                } else {
                    // what holds whatever the clock and the random id gave
                    (shows(f.spec_status(), "The clock cannot be read"@, true) && f.same_but_status(&o))
                        || exists|now: Timestamp, id: Seq<char>|
                        #![trigger saved_entry(o, now, id)]
                        now.valid() && if has_id(o.spec_store(), id) {
                            shows(f.spec_status(), "Failed to save entry: "@ + "Entry already exists"@, true)
                                && f.same_but_status(&o)
                        } else {
                            saved_as(f, o, saved_entry(o, now, id))
                        }
                }
            }),
    {
        let fv = chars_of(self.form.fields[1].value.as_str());
        assert(fv@.subrange(0, fv.len() as int) =~= fv@);
        if parse_fixed_at(&fv, 0, fv.len(), 6).is_none() {
            self.set_error("Invalid frequency format");
            return;
        }
        if self.mode == AppMode::Edit {
            match self.editing_index {
                Some(i) => {
                    let ts = self.entries[i].timestamp;
                    let id = self.entries[i].id.clone();
                    self.save_form_at(ts, id);
                    assert(saved_entry(*old(self), ts, id@) == edited_entry(*old(self)));
                },
                None => {
                    self.set_error("No entry selected for editing");
                },
            }
            return;
        }
        let now = match now_stamp() {
            Some(t) => t,
            None => {
                self.set_error("The clock cannot be read");
                return;
            },
        };
        let id = new_entry_id();
        self.save_form_at(now, id);
    }

    /// Moves the log to another format and place: `target` holds the records already kept
    /// there, and the current records are upserted into them; the list then shows the new
    /// log, with nothing selected or edited. Refused, with nothing changed, as the manager
    /// refuses `target`.
    pub fn change_storage_format(
        &mut self,
        format: StorageFormat,
        path: String,
        target: Vec<LogEntry>,
    ) -> (r: Result<(), StorageError>)
        requires
            old(self).wf(),
        ensures
            final(self).wf(),
            match r {
                Ok(()) => {
                    &&& final(self).spec_store() == upsert_all(
                        entries_view(target@),
                        old(self).spec_store(),
                    )
                    &&& final(self).spec_manager().spec_format() == format
                    &&& final(self).spec_manager().spec_path() == path@
                    &&& final(self).spec_entries() == final(self).spec_store()
                    &&& final(self).spec_selected() is None
                    &&& final(self).spec_editing() is None
                    &&& shows(final(self).spec_status(), "Storage format changed successfully"@, false)
                },
                Err(e) => load_refused(entries_view(target@), e) && *final(self) == *old(self),
            },
            load_refused_any(entries_view(target@)) <==> r is Err,
    {
        match self.storage_manager.change_storage_format(format, path, target) {
            Ok(()) => {
                self.entries = self.storage_manager.list_entries();
                proof {
                    self.storage_manager.lemma_wf();
                }
                self.selected_index = None;
                self.editing_index = None;
                self.set_status("Storage format changed successfully");
                Ok(())
            },
            Err(e) => Err(e),
        }
    }

    /// Imports ADIF text into the log (an upsert per record read) and lists the log anew,
    /// with nothing selected. Text that cannot be read changes nothing.
    pub fn import_adif(&mut self, content: &str) -> (r: Result<(), StorageError>)
        requires
            old(self).wf(),
        ensures
            final(self).wf(),
            final(self).spec_mode() == old(self).spec_mode(),
            final(self).spec_form() == old(self).spec_form(),
            match decode(content@) {
                Some(l) => {
                    &&& r is Ok
                    &&& final(self).spec_store() == upsert_all(old(self).spec_store(), l)
                    &&& final(self).spec_entries() == final(self).spec_store()
                    &&& final(self).spec_selected() is None
                    &&& shows(final(self).spec_status(), "Import done"@, false)
                },
                None => (r matches Err(e) && e is Adif) && final(self).spec_store() == old(
                    self,
                ).spec_store() && final(self).spec_entries() == old(self).spec_entries()
                    && final(self).spec_selected() == old(self).spec_selected(),
            },
    {
        match self.storage_manager.import_adif(content) {
            Ok(()) => {
                self.entries = self.storage_manager.list_entries();
                proof {
                    self.storage_manager.lemma_wf();
                }
                self.selected_index = None;
                self.editing_index = None;
                self.set_status("Import done");
                Ok(())
            },
            Err(e) => Err(e),
        }
    }

    /// Deletes the selected contact from the log and the list and keeps it for undo. With
    /// nothing selected nothing happens; when the log refuses, nothing changes.
    pub fn delete_current_entry(&mut self) -> (r: Result<(), StorageError>)
        requires
            old(self).wf(),
        ensures
            final(self).wf(),
            ({
                let o = *old(self);
                let f = *final(self);
                match o.spec_selected() {
                    None => r is Ok && f == o,
                    Some(i) => {
                        let id = o.spec_entries()[i as int].id;
                        if has_id(o.spec_store(), id) {
                            &&& r is Ok
                            &&& f.spec_store() == remove_id(o.spec_store(), id)
                            &&& f.spec_entries() == o.spec_entries().remove(i as int)
                            &&& f.spec_deleted().len() == o.spec_deleted().len() + 1
                            &&& f.spec_deleted().drop_last() == o.spec_deleted()
                            &&& f.spec_deleted().last().entry@ == o.spec_entries()[i as int]
                            &&& f.spec_deleted().last().index == i
                            &&& f.spec_selected() == if f.spec_entries().len() == 0 {
                                None
                            } else if i >= f.spec_entries().len() {
                                Some((f.spec_entries().len() - 1) as usize)
                            } else {
                                Some(i)
                            }
                            &&& shows(f.spec_status(), "Entry deleted. Press 'u' to undo."@, false)
                            &&& f.spec_mode() == o.spec_mode() && f.spec_form() == o.spec_form()
                        } else {
                            r is Err && f == o
                        }
                    },
                }
            }),
    {
        let idx = match self.selected_index {
            Some(i) => i,
            None => {
                return Ok(());
            },
        };
        let ghost o = *self;
        let deleted = DeletedEntry {
            entry: self.entries[idx].duplicate(),
            index: idx,
            timestamp: now_stamp(),
        };
        let id = self.entries[idx].id.clone();
        if self.storage_manager.get_entry(&id).is_none() {
            return Err(StorageError::NotFound(id));
        }
        let _ = self.storage_manager.delete_entry(&id);
        self.entries.remove(idx);
        assert(entries_view(self.entries@) =~= entries_view(o.entries@).remove(idx as int));
        assert(all_keys_unique(entries_view(self.entries@))) by {
            assert forall|k: int| 0 <= k < self.entries.len() implies keys_unique(
                #[trigger] entries_view(self.entries@)[k].custom_fields,
            ) by {
                let k2 = if k < idx { k } else { k + 1 };
                assert(entries_view(self.entries@)[k] == entries_view(o.entries@)[k2]);
            }
        }
        assert(keys_unique(deleted.entry@.custom_fields)) by {
            assert(entries_view(o.entries@)[idx as int] == deleted.entry@);
        }
        self.deleted_entries.push(deleted);
        self.editing_index = None;
        if self.entries.len() == 0 {
            self.selected_index = None;
        } else if idx >= self.entries.len() {
            self.selected_index = Some(self.entries.len() - 1);
        }
        self.set_status("Entry deleted. Press 'u' to undo.");
        assert(self.deleted_entries@.drop_last() =~= o.deleted_entries@);
        Ok(())
    }

    /// Puts the last deleted contact back into the log and into the list, where it stood
    /// (or at the end if the list is shorter now), and selects it.
    pub fn undo_delete(&mut self) -> (r: Result<(), StorageError>)
        requires
            old(self).wf(),
        ensures
            final(self).wf(),
            r is Ok,
            ({
                let o = *old(self);
                let f = *final(self);
                if o.spec_deleted().len() == 0 {
                    shows(f.spec_status(), "No deletions to undo"@, false) && f.same_but_status(&o)
                } else {
                    let d = o.spec_deleted().last();
                    let pos = if d.index < o.spec_entries().len() {
                        d.index as int
                    } else {
                        o.spec_entries().len() as int
                    };
                    &&& f.spec_store() == upsert(o.spec_store(), d.entry@)
                    &&& f.spec_entries() == o.spec_entries().insert(pos, d.entry@)
                    &&& f.spec_deleted() == o.spec_deleted().drop_last()
                    &&& f.spec_selected() == Some(pos as usize)
                    &&& shows(f.spec_status(), "Delete undone"@, false)
                    &&& f.spec_mode() == o.spec_mode() && f.spec_form() == o.spec_form()
                }
            }),
    {
        let ghost o = *self;
        if self.deleted_entries.len() == 0 {
            self.set_status("No deletions to undo");
            return Ok(());
        }
        match self.deleted_entries.pop() {
            Some(deleted) => {
                let kept = deleted.entry.duplicate();
                let _ = self.storage_manager.save_entry(kept);
                let pos = if deleted.index < self.entries.len() {
                    deleted.index
                } else {
                    self.entries.len()
                };
                let ghost de = deleted.entry@;
                self.entries.insert(pos, deleted.entry);
                assert(entries_view(self.entries@) =~= entries_view(o.entries@).insert(
                    pos as int,
                    o.deleted_entries@.last().entry@,
                ));
                assert(all_keys_unique(entries_view(self.entries@))) by {
                    assert(keys_unique(de.custom_fields)) by {
                        assert(o.deleted_entries@[o.deleted_entries.len() - 1].entry@ == de);
                    }
                    assert forall|k: int| 0 <= k < self.entries.len() implies keys_unique(
                        #[trigger] entries_view(self.entries@)[k].custom_fields,
                    ) by {
                        if k < pos {
                            assert(entries_view(self.entries@)[k] == entries_view(o.entries@)[k]);
                        } else if k > pos {
                            assert(entries_view(self.entries@)[k] == entries_view(o.entries@)[k - 1]);
                        }
                    }
                }
                assert forall|k: int| 0 <= k < self.deleted_entries.len() implies keys_unique(
                    #[trigger] self.deleted_entries@[k].entry@.custom_fields,
                ) by {
                    assert(self.deleted_entries@[k] == o.deleted_entries@[k]);
                }
                self.selected_index = Some(pos);
                self.editing_index = None;
                self.set_status("Delete undone");
                Ok(())
            },
            None => {
                self.set_status("No deletions to undo");
                Ok(())
            },
        }
    }

    /// Fills the form from the selected contact and starts editing it.
    pub fn edit_selected_entry(&mut self)
        requires
            old(self).wf(),
        ensures
            final(self).wf(),
            ({
                let o = *old(self);
                let f = *final(self);
                match o.spec_selected() {
                    None => f == o,
                    Some(i) => {
                        let e = o.spec_entries()[i as int];
                        &&& f.spec_mode() == AppMode::Edit
                        &&& f.spec_editing() == Some(i)
                        &&& f.spec_form().fields@[0].value@ == e.callsign
                        &&& f.spec_form().fields@[1].value@ == fixed_text(e.frequency as nat, 6)
                        &&& f.spec_form().fields@[2].value@ == e.mode
                        &&& Some(f.spec_form().fields@[3].value@) == (match e.rst_sent {
                            Some(v) => Some(v),
                            None => Some(Seq::<char>::empty()),
                        })
                        &&& Some(f.spec_form().fields@[4].value@) == (match e.rst_received {
                            Some(v) => Some(v),
                            None => Some(Seq::<char>::empty()),
                        })
                        &&& Some(f.spec_form().fields@[5].value@) == (match e.notes {
                            Some(v) => Some(v),
                            None => Some(Seq::<char>::empty()),
                        })
                        &&& forall|k: int|
                            0 <= k < 6 ==> (#[trigger] f.spec_form().fields@[k]).label
                                == o.spec_form().fields@[k].label
                        &&& f.same_log(&o)
                    },
                }
            }),
    {
        let idx = match self.selected_index {
            Some(i) => i,
            None => {
                return;
            },
        };
        let ghost o = *self;
        let e = &self.entries[idx];
        let mut fv: Vec<char> = Vec::new();
        push_fixed(&mut fv, e.frequency, 6);
        let callsign = e.callsign.clone();
        let freq = string_of(&fv);
        let mode = e.mode.clone();
        let rst_sent = text_or_empty(&e.rst_sent);
        let rst_received = text_or_empty(&e.rst_received);
        let notes = text_or_empty(&e.notes);
        self.form.set_value(0, callsign);
        self.form.set_value(1, freq);
        self.form.set_value(2, mode);
        self.form.set_value(3, rst_sent);
        self.form.set_value(4, rst_received);
        self.form.set_value(5, notes);
        self.mode = AppMode::Edit;
        self.editing_index = Some(idx);
    }
}

} // verus!
