//! The short entry form: callsign, frequency, mode, reports and notes.
use vstd::prelude::*;
use crate::text::{insert_char, remove_char, blank, is_blank};

verus! {

/// One labelled input line; `cursor_position` counts characters.
pub struct FormField {
    pub label: String,
    pub value: String,
    pub required: bool,
    pub cursor_position: usize,
}

/// A list of input lines, one of which has the focus.
pub struct Form {
    pub fields: Vec<FormField>,
    pub current_field: usize,
}

fn field(label: &str, required: bool) -> (r: FormField)
    ensures
        r.label@ == label@,
        r.value@ == Seq::<char>::empty(),
        r.required == required,
        r.cursor_position == 0,
{
    FormField { label: label.to_string(), value: String::new(), required, cursor_position: 0 }
}

impl Form {
    /// At least one field, the focus on one of them, and every cursor within its text.
    pub open spec fn wf(&self) -> bool {
        &&& self.fields.len() > 0
        &&& self.current_field < self.fields.len()
        &&& forall|i: int|
            0 <= i < self.fields.len() ==> #[trigger] self.fields@[i].cursor_position
                <= self.fields@[i].value@.len()
    }

    /// `self` is `old` after typing `c` at the focused field's cursor.
    pub open spec fn typed(&self, old: &Form, c: char) -> bool {
        let i = old.current_field as int;
        let f = old.fields@[i];
        &&& self.current_field == old.current_field
        &&& self.fields.len() == old.fields.len()
        &&& self.fields@[i].value@ == f.value@.insert(f.cursor_position as int, c)
        &&& self.fields@[i].cursor_position == f.cursor_position + 1
        &&& self.fields@[i].label == f.label
        &&& self.fields@[i].required == f.required
        &&& forall|j: int|
            0 <= j < self.fields.len() && j != i ==> self.fields@[j] == old.fields@[j]
    }

    /// `self` is `old` after deleting the character before the focused field's cursor, if
    /// there is one.
    pub open spec fn erased(&self, old: &Form) -> bool {
        let i = old.current_field as int;
        let f = old.fields@[i];
        if f.cursor_position > 0 {
            &&& self.current_field == old.current_field
            &&& self.fields.len() == old.fields.len()
            &&& self.fields@[i].value@ == f.value@.remove(f.cursor_position - 1)
            &&& self.fields@[i].cursor_position == f.cursor_position - 1
            &&& self.fields@[i].label == f.label
            &&& self.fields@[i].required == f.required
            &&& forall|j: int|
                0 <= j < self.fields.len() && j != i ==> self.fields@[j] == old.fields@[j]
        } else {
            *self == *old
        }
    }

    /// `self` is `old` with every field emptied and the focus on the first.
    pub open spec fn cleared(&self, old: &Form) -> bool {
        &&& self.current_field == 0
        &&& self.fields.len() == old.fields.len()
        &&& forall|i: int|
            0 <= i < self.fields.len() ==> (#[trigger] self.fields@[i]).label == old.fields@[i].label
                && self.fields@[i].required == old.fields@[i].required && self.fields@[i].value@
                == Seq::<char>::empty() && self.fields@[i].cursor_position == 0
    }

    /// The form of a new contact: callsign, frequency and mode required, then RST sent,
    /// RST received and notes; all empty, focus on the first.
    pub fn new() -> (r: Form)
        ensures
            r.wf(),
            r.fields.len() == 6,
            r.current_field == 0,
            r.fields@[0].label@ == "Callsign"@,
            r.fields@[1].label@ == "Frequency"@,
            r.fields@[2].label@ == "Mode"@,
            r.fields@[3].label@ == "RST Sent"@,
            r.fields@[4].label@ == "RST Rcvd"@,
            r.fields@[5].label@ == "Notes"@,
            forall|i: int|
                0 <= i < 6 ==> (#[trigger] r.fields@[i]).required == (i < 3) && r.fields@[i].value@
                    == Seq::<char>::empty() && r.fields@[i].cursor_position == 0,
    {
        let mut fields: Vec<FormField> = Vec::new();
        fields.push(field("Callsign", true));
        fields.push(field("Frequency", true));
        fields.push(field("Mode", true));
        fields.push(field("RST Sent", false));
        fields.push(field("RST Rcvd", false));
        fields.push(field("Notes", false));
        Form { fields, current_field: 0 }
    }

    /// Empties every field and moves the focus to the first; labels and flags stay.
    pub fn reset(&mut self)
        ensures
            old(self).fields.len() > 0 ==> final(self).wf(),
            final(self).cleared(old(self)),
    {
        let mut i: usize = 0;
        while i < self.fields.len()
            invariant
                i <= self.fields.len() == old(self).fields.len(),
                forall|k: int|
                    0 <= k < self.fields.len() ==> (#[trigger] self.fields@[k]).label == old(
                        self,
                    ).fields@[k].label && self.fields@[k].required == old(self).fields@[k].required,
                forall|k: int|
                    0 <= k < i ==> (#[trigger] self.fields@[k]).value@ == Seq::<char>::empty()
                        && self.fields@[k].cursor_position == 0,
            decreases self.fields.len() - i,
        {
            let f = FormField {
                label: self.fields[i].label.clone(),
                value: String::new(),
                required: self.fields[i].required,
                cursor_position: 0,
            };
            self.fields.set(i, f);
            i = i + 1;
        }
        self.current_field = 0;
    }

    /// Moves the focus to the next field, from the last back to the first.
    pub fn next_field(&mut self)
        requires
            old(self).wf(),
        ensures
            final(self).wf(),
            final(self).fields == old(self).fields,
            final(self).current_field == (old(self).current_field + 1) % (old(
                self,
            ).fields.len() as int),
    {
        self.current_field = (self.current_field + 1) % self.fields.len();
    }

    /// Moves the focus to the previous field, from the first to the last.
    pub fn previous_field(&mut self)
        requires
            old(self).wf(),
        ensures
            final(self).wf(),
            final(self).fields == old(self).fields,
            final(self).current_field == if old(self).current_field == 0 {
                old(self).fields.len() - 1
            } else {
                old(self).current_field - 1
            },
    {
        if self.current_field == 0 {
            self.current_field = self.fields.len() - 1;
        } else {
            self.current_field = self.current_field - 1;
        }
    }

    /// Types `c` at the cursor of the focused field and moves the cursor past it.
    pub fn input(&mut self, c: char)
        requires
            old(self).wf(),
        ensures
            final(self).wf(),
            final(self).typed(old(self), c),
    {
        let i = self.current_field;
        let value = insert_char(&self.fields[i].value, self.fields[i].cursor_position, c);
        let f = FormField {
            label: self.fields[i].label.clone(),
            value,
            required: self.fields[i].required,
            cursor_position: self.fields[i].cursor_position + 1,
        };
        self.fields.set(i, f);
        assert forall|k: int| 0 <= k < self.fields.len() implies #[trigger] self.fields@[k].cursor_position
            <= self.fields@[k].value@.len() by {
            if k != i {
                assert(self.fields@[k] == old(self).fields@[k]);
            }
        }
    }

    /// Deletes the character before the cursor of the focused field, if any.
    pub fn backspace(&mut self)
        requires
            old(self).wf(),
        ensures
            final(self).wf(),
            final(self).erased(old(self)),
    {
        let i = self.current_field;
        if self.fields[i].cursor_position > 0 {
            let pos = self.fields[i].cursor_position - 1;
            let value = remove_char(&self.fields[i].value, pos);
            let f = FormField {
                label: self.fields[i].label.clone(),
                value,
                required: self.fields[i].required,
                cursor_position: pos,
            };
            self.fields.set(i, f);
            assert forall|k: int| 0 <= k < self.fields.len() implies #[trigger] self.fields@[k].cursor_position
                <= self.fields@[k].value@.len() by {
                if k != i {
                    assert(self.fields@[k] == old(self).fields@[k]);
                }
            }
        }
    }

    /// Replaces the text of field `k` and puts its cursor after the last character.
    pub fn set_value(&mut self, k: usize, value: String)
        requires
            old(self).wf(),
            k < old(self).fields.len(),
        ensures
            final(self).wf(),
            final(self).current_field == old(self).current_field,
            final(self).fields.len() == old(self).fields.len(),
            final(self).fields@[k as int].value@ == value@,
            final(self).fields@[k as int].cursor_position == value@.len(),
            final(self).fields@[k as int].label == old(self).fields@[k as int].label,
            final(self).fields@[k as int].required == old(self).fields@[k as int].required,
            forall|j: int|
                0 <= j < final(self).fields.len() && j != k ==> final(self).fields@[j] == old(
                    self,
                ).fields@[j],
    {
        let cursor_position = crate::text::char_count(&value);
        let f = FormField {
            label: self.fields[k].label.clone(),
            value,
            required: self.fields[k].required,
            cursor_position,
        };
        self.fields.set(k, f);
        assert forall|i: int| 0 <= i < self.fields.len() implies #[trigger] self.fields@[i].cursor_position
            <= self.fields@[i].value@.len() by {
            if i != k {
                assert(self.fields@[i] == old(self).fields@[i]);
            }
        }
    }

    /// Every required field holds something besides white space.
    pub fn is_valid(&self) -> (r: bool)
        ensures
            r == forall|i: int|
                0 <= i < self.fields.len() && (#[trigger] self.fields@[i]).required ==> !is_blank(
                    self.fields@[i].value@,
                ),
    {
        let mut i: usize = 0;
        while i < self.fields.len()
            invariant
                i <= self.fields.len(),
                forall|k: int|
                    0 <= k < i && (#[trigger] self.fields@[k]).required ==> !is_blank(
                        self.fields@[k].value@,
                    ),
            decreases self.fields.len() - i,
        {
            if self.fields[i].required && blank(&self.fields[i].value) {
                return false;
            }
            i = i + 1;
        }
        true
    }
}

} // verus!
