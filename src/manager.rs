//! The one entry point to a log: CRUD, ADIF import and export, and a change of the
//! format it is kept in.
use vstd::prelude::*;
use crate::StorageFormat;
use crate::adif::{decode, encode};
use crate::adif_read::adif_to_entries;
use crate::adif_write::entries_to_adif;
use crate::error::StorageError;
use crate::record::{EntryView, LogEntry, entries_view};
use crate::store::{
    LogStore, has_id, ids_unique, lookup, remove_id, upsert, upsert_all, lemma_replay_into_empty,
    lemma_import_idempotent, all_keys_unique, custom_keys_unique,
};
use crate::adif::keys_unique;
use crate::adif_laws::{encodable, lemma_round_trip};

verus! {

/// Why a set of records read from a medium cannot be a log: a record repeats a custom
/// key (`Validation`), or, failing that, two records share an id (`EntryExists`).
pub open spec fn load_refused(s: Seq<EntryView>, e: StorageError) -> bool {
    if !all_keys_unique(s) {
        e is Validation
    } else {
        !ids_unique(s) && e is EntryExists
    }
}

pub open spec fn load_refused_any(s: Seq<EntryView>) -> bool {
    !all_keys_unique(s) || !ids_unique(s)
}

/// Exporting a log as ADIF and importing that text into an empty log gives the same
/// records, in the same order, when every record can be written unchanged.
pub proof fn lemma_export_then_import(log: Seq<EntryView>)
    requires
        ids_unique(log),
        forall|k: int| 0 <= k < log.len() ==> encodable(#[trigger] log[k]),
    ensures
        decode(encode(log)) == Some(log),
        upsert_all(Seq::<EntryView>::empty(), decode(encode(log))->0) == log,
{
    lemma_round_trip(log);
    lemma_replay_into_empty(log);
}

/// Importing the same ADIF text a second time leaves the log as the first import left it.
pub proof fn lemma_import_twice(log: Seq<EntryView>, content: Seq<char>)
    requires
        ids_unique(log),
        decode(content) is Some,
    ensures
        upsert_all(upsert_all(log, decode(content)->0), decode(content)->0) == upsert_all(
            log,
            decode(content)->0,
        ),
{
    lemma_import_idempotent(log, decode(content)->0);
}

/// The active log, the format it is kept in and where.
pub struct StorageManager {
    store: LogStore,
    format: StorageFormat,
    path: String,
}

impl View for StorageManager {
    type V = Seq<EntryView>;

    closed spec fn view(&self) -> Seq<EntryView> {
        self.store@
    }
}

impl StorageManager {
    pub closed spec fn wf(&self) -> bool {
        self.store.wf()
    }

    pub closed spec fn spec_format(&self) -> StorageFormat {
        self.format
    }

    pub closed spec fn spec_path(&self) -> Seq<char> {
        self.path@
    }

    pub proof fn lemma_wf(&self)
        requires
            self.wf(),
        ensures
            ids_unique(self@),
            all_keys_unique(self@),
    {
        self.store.lemma_wf();
    }

    /// A manager over the records already read from `path`. Fails with `Validation` when
    /// a record's custom fields repeat a key, else with `EntryExists` when two records share
    /// an id.
    pub fn new(format: StorageFormat, path: String, entries: Vec<LogEntry>) -> (r: Result<
        StorageManager,
        StorageError,
    >)
        ensures
            match r {
                Ok(m) => m.wf() && m@ == entries_view(entries@) && m.spec_format() == format
                    && m.spec_path() == path@,
                Err(e) => load_refused(entries_view(entries@), e),
            },
            load_refused_any(entries_view(entries@)) <==> r is Err,
    {
        let ghost all = entries_view(entries@);
        let mut k: usize = 0;
        while k < entries.len()
            invariant
                k <= entries.len(),
                all == entries_view(entries@),
                forall|j: int| 0 <= j < k ==> keys_unique(#[trigger] all[j].custom_fields),
            decreases entries.len() - k,
        {
            if !custom_keys_unique(&entries[k]) {
                assert(!all_keys_unique(all)) by {
                    assert(!keys_unique(all[k as int].custom_fields));
                }
                return Err(StorageError::Validation("a record's custom fields repeat a key".to_string()));
            }
            k = k + 1;
        }
        assert(all_keys_unique(all));
        let mut store = LogStore::new();
        let mut i: usize = 0;
        while i < entries.len()
            invariant
                i <= entries.len(),
                all == entries_view(entries@),
                all_keys_unique(all),
                store.wf(),
                store@ == all.subrange(0, i as int),
            decreases entries.len() - i,
        {
            let e = entries[i].duplicate();
            assert(keys_unique(all[i as int].custom_fields));
            let ghost before = store@;
            match store.add_entry(e) {
                Ok(()) => {},
                Err(_) => {
                    proof {
                        let k = choose|k: int| 0 <= k < before.len() && before[k].id == e@.id;
                        assert(all[k] == before[k]);
                        assert(all[i as int] == e@);
                    }
                    return Err(StorageError::EntryExists);
                },
            }
            i = i + 1;
            assert(store@ =~= all.subrange(0, i as int));
        }
        proof {
            store.lemma_wf();
        }
        assert(all.subrange(0, entries.len() as int) =~= all);
        Ok(StorageManager { store, format, path })
    }

    /// Upsert by id; never fails.
    pub fn save_entry(&mut self, entry: LogEntry) -> (r: Result<(), StorageError>)
        requires
            old(self).wf(),
            keys_unique(entry@.custom_fields),
        ensures
            final(self).wf(),
            r is Ok,
            final(self)@ == upsert(old(self)@, entry@),
            final(self).spec_format() == old(self).spec_format(),
            final(self).spec_path() == old(self).spec_path(),
    {
        self.store.save_entry(entry);
        Ok(())
    }

    /// Insert only: `EntryExists`, and nothing changed, when the id is taken.
    pub fn add_entry(&mut self, entry: LogEntry) -> (r: Result<(), StorageError>)
        requires
            old(self).wf(),
            keys_unique(entry@.custom_fields),
        ensures
            final(self).wf(),
            final(self).spec_format() == old(self).spec_format(),
            final(self).spec_path() == old(self).spec_path(),
            has_id(old(self)@, entry@.id) ==> (r matches Err(StorageError::EntryExists))
                && final(self)@ == old(self)@,
            !has_id(old(self)@, entry@.id) ==> r is Ok && final(self)@ == old(self)@.push(
                entry@,
            ),
    {
        self.store.add_entry(entry)
    }

    /// The entry with this id, if any.
    pub fn get_entry(&self, id: &String) -> (r: Option<LogEntry>)
        requires
            self.wf(),
        ensures
            match r {
                Some(e) => lookup(self@, id@) == Some(e@),
                None => lookup(self@, id@) is None,
            },
    {
        self.store.get_entry(id)
    }

    /// All entries, in storage order.
    pub fn list_entries(&self) -> (r: Vec<LogEntry>)
        ensures
            entries_view(r@) == self@,
    {
        self.store.list_entries()
    }

    /// Replaces the entry with that id; `NotFound`, and nothing changed, when there is none.
    pub fn update_entry(&mut self, entry: LogEntry) -> (r: Result<(), StorageError>)
        requires
            old(self).wf(),
            keys_unique(entry@.custom_fields),
        ensures
            final(self).wf(),
            final(self).spec_format() == old(self).spec_format(),
            final(self).spec_path() == old(self).spec_path(),
            has_id(old(self)@, entry@.id) ==> r is Ok && final(self)@ == upsert(
                old(self)@,
                entry@,
            ),
            !has_id(old(self)@, entry@.id) ==> final(self)@ == old(self)@ && (r matches Err(
                StorageError::NotFound(m),
            ) && m@ == entry@.id),
    {
        self.store.update_entry(entry)
    }

    /// Removes the entry with that id; `NotFound`, and nothing changed, when there is none.
    pub fn delete_entry(&mut self, id: &String) -> (r: Result<(), StorageError>)
        requires
            old(self).wf(),
        ensures
            final(self).wf(),
            final(self).spec_format() == old(self).spec_format(),
            final(self).spec_path() == old(self).spec_path(),
            final(self)@ == remove_id(old(self)@, id@),
            has_id(old(self)@, id@) <==> r is Ok,
            r matches Err(e) ==> (e matches StorageError::NotFound(m) && m@ == id@),
    {
        self.store.delete_entry(id)
    }

    /// Removes every entry.
    pub fn clear(&mut self)
        ensures
            final(self).wf(),
            final(self)@ == Seq::<EntryView>::empty(),
            final(self).spec_format() == old(self).spec_format(),
            final(self).spec_path() == old(self).spec_path(),
    {
        self.store.clear();
    }

    /// The ADIF text of all entries, in storage order.
    pub fn export_adif(&self) -> (r: String)
        ensures
            r@ == encode(self@),
    {
        let entries = self.store.list_entries();
        entries_to_adif(&entries)
    }

    /// Reads `content` as ADIF and upserts every record read, in order, so a second import
    /// of the same text changes nothing. A text that cannot be read is an `Adif` error and
    /// changes nothing.
    pub fn import_adif(&mut self, content: &str) -> (r: Result<(), StorageError>)
        requires
            old(self).wf(),
        ensures
            final(self).wf(),
            final(self).spec_format() == old(self).spec_format(),
            final(self).spec_path() == old(self).spec_path(),
            match decode(content@) {
                Some(l) => r is Ok && final(self)@ == upsert_all(old(self)@, l),
                None => (r matches Err(e) && e is Adif) && final(self)@ == old(self)@,
            },
    {
        match adif_to_entries(content) {
            Ok(entries) => {
                self.store.save_all(entries);
                Ok(())
            },
            Err(e) => Err(e),
        }
    }

    /// Moves the log to another format and place: `target` holds the records already
    /// kept there, and every record of the current log is upserted into them, in order, so
    /// records only the target held survive. Refused, with nothing changed, as `new` refuses
    /// `target`.
    pub fn change_storage_format(
        &mut self,
        format: StorageFormat,
        path: String,
        target: Vec<LogEntry>,
    ) -> (r: Result<(), StorageError>)
        requires
            old(self).wf(),
        ensures
            final(self).wf(),
            match r {
                Ok(()) => final(self)@ == upsert_all(entries_view(target@), old(self)@)
                    && final(self).spec_format() == format && final(self).spec_path() == path@,
                Err(e) => load_refused(entries_view(target@), e) && *final(self) == *old(self),
            },
            load_refused_any(entries_view(target@)) <==> r is Err,
    {
        let current = self.store.list_entries();
        let mut next = match StorageManager::new(format, path, target) {
            Ok(m) => m,
            Err(e) => {
                return Err(e);
            },
        };
        proof {
            self.store.lemma_wf();
        }
        next.store.save_all(current);
        *self = next;
        Ok(())
    }

    /// The format the log is kept in.
    pub fn get_format(&self) -> (r: StorageFormat)
        ensures
            r == self.spec_format(),
    {
        self.format
    }

    /// Where the log is kept.
    pub fn get_path(&self) -> (r: &String)
        ensures
            r@ == self.spec_path(),
    {
        &self.path
    }
}

} // verus!
