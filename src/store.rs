//! A record set keyed by id, with the operations every storage backend offers, and the
//! laws they obey.
use vstd::prelude::*;
use crate::error::StorageError;
use crate::adif::keys_unique;
use crate::record::{EntryView, LogEntry, entries_view, copy_entries, pairs_text};

verus! {

/// No two entries share an id.
pub open spec fn ids_unique(s: Seq<EntryView>) -> bool {
    forall|i: int, j: int| 0 <= i < s.len() && 0 <= j < s.len() && i != j ==> s[i].id != s[j].id
}

/// Every entry's custom fields have distinct keys.
pub open spec fn all_keys_unique(s: Seq<EntryView>) -> bool {
    forall|k: int| 0 <= k < s.len() ==> keys_unique(#[trigger] s[k].custom_fields)
}

proof fn lemma_upsert_keys(s: Seq<EntryView>, e: EntryView)
    requires
        all_keys_unique(s),
        keys_unique(e.custom_fields),
    ensures
        all_keys_unique(upsert(s, e)),
{
    let r = upsert(s, e);
    assert forall|k: int| 0 <= k < r.len() implies keys_unique(#[trigger] r[k].custom_fields) by {
        if k < s.len() && r[k] != e {
            assert(r[k] == s[k]);
        }
    }
}

/// Some entry has this id.
pub open spec fn has_id(s: Seq<EntryView>, id: Seq<char>) -> bool {
    exists|i: int| 0 <= i < s.len() && s[i].id == id
}

/// The position of the entry with this id (meaningful when `has_id`).
pub open spec fn pos_of(s: Seq<EntryView>, id: Seq<char>) -> int {
    choose|i: int| 0 <= i < s.len() && s[i].id == id
}

/// The entry with this id, if any.
pub open spec fn lookup(s: Seq<EntryView>, id: Seq<char>) -> Option<EntryView> {
    if has_id(s, id) {
        Some(s[pos_of(s, id)])
    } else {
        None
    }
}

/// Upsert: replace the entry with `e`'s id by `e`, or append `e`.
pub open spec fn upsert(s: Seq<EntryView>, e: EntryView) -> Seq<EntryView> {
    if has_id(s, e.id) {
        s.update(pos_of(s, e.id), e)
    } else {
        s.push(e)
    }
}

/// Upserting every entry of `l`, first to last.
pub open spec fn upsert_all(s: Seq<EntryView>, l: Seq<EntryView>) -> Seq<EntryView>
    decreases l.len(),
{
    if l.len() == 0 {
        s
    } else {
        upsert(upsert_all(s, l.drop_last()), l.last())
    }
}

/// Removing the entry with this id, if any.
pub open spec fn remove_id(s: Seq<EntryView>, id: Seq<char>) -> Seq<EntryView> {
    if has_id(s, id) {
        s.remove(pos_of(s, id))
    } else {
        s
    }
}

proof fn lemma_pos_of_unique(s: Seq<EntryView>, i: int)
    requires
        ids_unique(s),
        0 <= i < s.len(),
    ensures
        has_id(s, s[i].id),
        pos_of(s, s[i].id) == i,
{
    assert(has_id(s, s[i].id));
}

proof fn lemma_upsert_unique(s: Seq<EntryView>, e: EntryView)
    requires
        ids_unique(s),
    ensures
        ids_unique(upsert(s, e)),
        has_id(upsert(s, e), e.id),
        forall|id: Seq<char>| has_id(s, id) ==> has_id(upsert(s, e), id),
{
    let r = upsert(s, e);
    if has_id(s, e.id) {
        let p = pos_of(s, e.id);
        assert(r[p].id == e.id);
        assert forall|id: Seq<char>| has_id(s, id) implies has_id(r, id) by {
            let k = choose|k: int| 0 <= k < s.len() && s[k].id == id;
            assert(r[k].id == id);
        }
    } else {
        assert(r[s.len() as int].id == e.id);
        assert forall|id: Seq<char>| has_id(s, id) implies has_id(r, id) by {
            let k = choose|k: int| 0 <= k < s.len() && s[k].id == id;
            assert(r[k].id == id);
        }
    }
}

/// The last entry of `l` with this id (meaningful when `has_id(l, id)`).
pub open spec fn last_with(l: Seq<EntryView>, id: Seq<char>) -> EntryView
    decreases l.len(),
{
    if l.len() == 0 {
        arbitrary()
    } else if l.last().id == id {
        l.last()
    } else {
        last_with(l.drop_last(), id)
    }
}

proof fn lemma_has_id_drop_last(l: Seq<EntryView>, id: Seq<char>)
    requires
        l.len() > 0,
    ensures
        has_id(l, id) <==> (has_id(l.drop_last(), id) || l.last().id == id),
{
    let d = l.drop_last();
    if has_id(l, id) && l.last().id != id {
        let k = choose|k: int| 0 <= k < l.len() && l[k].id == id;
        assert(d[k].id == id);
    }
    if has_id(d, id) {
        let k = choose|k: int| 0 <= k < d.len() && d[k].id == id;
        assert(l[k].id == id);
    }
    if l.last().id == id {
        assert(l[l.len() - 1].id == id);
    }
}

/// What upserting a whole sequence leaves at each position: the last value that `l` gave
/// the id there, or the original entry where `l` never names that id.
proof fn lemma_upsert_all_shape(s: Seq<EntryView>, l: Seq<EntryView>)
    requires
        ids_unique(s),
    ensures
        ids_unique(upsert_all(s, l)),
        upsert_all(s, l).len() >= s.len(),
        forall|id: Seq<char>| has_id(l, id) ==> has_id(upsert_all(s, l), id),
        forall|k: int|
            0 <= k < s.len() ==> #[trigger] upsert_all(s, l)[k].id == s[k].id,
        forall|k: int|
            #![trigger upsert_all(s, l)[k]]
            0 <= k < upsert_all(s, l).len() ==> if has_id(l, upsert_all(s, l)[k].id) {
                upsert_all(s, l)[k] == last_with(l, upsert_all(s, l)[k].id)
            } else {
                k < s.len() && upsert_all(s, l)[k] == s[k]
            },
        (forall|id: Seq<char>| has_id(l, id) ==> has_id(s, id)) ==> upsert_all(s, l).len()
            == s.len(),
    decreases l.len(),
{
    if l.len() == 0 {
        assert forall|id: Seq<char>| !has_id(l, id) by {}
    } else {
        let d = l.drop_last();
        let e = l.last();
        lemma_upsert_all_shape(s, d);
        let r = upsert_all(s, d);
        let r2 = upsert_all(s, l);
        assert(r2 == upsert(r, e));
        lemma_upsert_unique(r, e);
        assert forall|id: Seq<char>| has_id(l, id) implies has_id(r2, id) by {
            lemma_has_id_drop_last(l, id);
        }
        if has_id(r, e.id) {
            let p = pos_of(r, e.id);
            assert(r2 == r.update(p, e));
            assert forall|k: int| #![trigger r2[k]] 0 <= k < r2.len() implies if has_id(l, r2[k].id) {
                r2[k] == last_with(l, r2[k].id)
            } else {
                k < s.len() && r2[k] == s[k]
            } by {
                lemma_has_id_drop_last(l, r2[k].id);
                if k != p {
                    assert(r2[k] == r[k]);
                    assert(r[k].id != e.id);
                }
            }
            assert forall|k: int| 0 <= k < s.len() implies #[trigger] r2[k].id == s[k].id by {
                assert(r[k].id == s[k].id);
            }
        } else {
            assert(r2 == r.push(e));
            assert forall|k: int| #![trigger r2[k]] 0 <= k < r2.len() implies if has_id(l, r2[k].id) {
                r2[k] == last_with(l, r2[k].id)
            } else {
                k < s.len() && r2[k] == s[k]
            } by {
                lemma_has_id_drop_last(l, r2[k].id);
                if k < r.len() {
                    assert(r2[k] == r[k]);
                    assert(r[k].id != e.id) by {
                        assert(r[k].id == e.id ==> has_id(r, e.id));
                    }
                }
            }
            assert forall|k: int| 0 <= k < s.len() implies #[trigger] r2[k].id == s[k].id by {
                assert(r[k].id == s[k].id);
            }
            if forall|id: Seq<char>| has_id(l, id) ==> has_id(s, id) {
                lemma_has_id_drop_last(l, e.id);
                assert(has_id(s, e.id));
                let k = choose|k: int| 0 <= k < s.len() && s[k].id == e.id;
                assert(r[k].id == e.id);
            }
        }
        if forall|id: Seq<char>| has_id(l, id) ==> has_id(s, id) {
            assert forall|id: Seq<char>| has_id(d, id) implies has_id(s, id) by {
                lemma_has_id_drop_last(l, id);
            }
        }
    }
}

/// Importing the same entries a second time changes nothing: every id they name already
/// holds the last value they gave it.
pub proof fn lemma_import_idempotent(s: Seq<EntryView>, l: Seq<EntryView>)
    requires
        ids_unique(s),
    ensures
        upsert_all(upsert_all(s, l), l) == upsert_all(s, l),
{
    let r1 = upsert_all(s, l);
    lemma_upsert_all_shape(s, l);
    lemma_upsert_all_shape(r1, l);
    let r2 = upsert_all(r1, l);
    assert(r2.len() == r1.len());
    assert forall|k: int| 0 <= k < r1.len() implies r2[k] == r1[k] by {
        assert(r2[k].id == r1[k].id);
    }
    assert(r2 =~= r1);
}

/// Upsert replaces the whole entry with that id, leaving no field of the old value, and
/// touches no other entry.
pub proof fn lemma_upsert_replaces(s: Seq<EntryView>, e: EntryView)
    requires
        ids_unique(s),
        has_id(s, e.id),
    ensures
        upsert(s, e).len() == s.len(),
        lookup(upsert(s, e), e.id) == Some(e),
        forall|id: Seq<char>| id != e.id ==> lookup(upsert(s, e), id) == lookup(s, id),
{
    let r = upsert(s, e);
    let p = pos_of(s, e.id);
    lemma_upsert_unique(s, e);
    lemma_pos_of_unique(r, p);
    assert forall|id: Seq<char>| id != e.id implies lookup(r, id) == lookup(s, id) by {
        if has_id(s, id) {
            let k = pos_of(s, id);
            assert(r[k] == s[k]);
            lemma_pos_of_unique(r, k);
        }
        if has_id(r, id) {
            let k = pos_of(r, id);
            assert(s[k] == r[k]);
        }
    }
}

/// Replaying every entry of a log into an empty one, as a format change does, gives the
/// same entries in the same order.
pub proof fn lemma_replay_into_empty(l: Seq<EntryView>)
    requires
        ids_unique(l),
    ensures
        upsert_all(Seq::<EntryView>::empty(), l) == l,
    decreases l.len(),
{
    if l.len() > 0 {
        let d = l.drop_last();
        assert(ids_unique(d));
        lemma_replay_into_empty(d);
        if has_id(d, l.last().id) {
            let k = choose|k: int| 0 <= k < d.len() && d[k].id == l.last().id;
            assert(l[k].id == l[l.len() - 1].id);
        }
        assert(d.push(l.last()) =~= l);
    }
}

/// Whether the custom fields of `e` have distinct keys.
pub fn custom_keys_unique(e: &LogEntry) -> (r: bool)
    ensures
        r == keys_unique(e@.custom_fields),
{
    let c = &e.custom_fields;
    let ghost v = pairs_text(c@);
    assert(v == e@.custom_fields);
    let mut i: usize = 0;
    while i < c.len()
        invariant
            i <= c.len(),
            v == pairs_text(c@),
            v == e@.custom_fields,
            forall|a: int, b: int| 0 <= a < i && 0 <= b < c.len() && a != b ==> v[a].0 != v[b].0,
        decreases c.len() - i,
    {
        let mut j: usize = 0;
        while j < c.len()
            invariant
                i < c.len(),
                j <= c.len(),
                v == pairs_text(c@),
                v == e@.custom_fields,
                forall|b: int| 0 <= b < j && b != i ==> v[i as int].0 != v[b].0,
            decreases c.len() - j,
        {
            if j != i && c[i].0 == c[j].0 {
                assert(v[i as int].0 == v[j as int].0);
                assert(!keys_unique(v));
                return false;
            }
            j = j + 1;
        }
        i = i + 1;
    }
    assert(keys_unique(v));
    true
}

/// The records of one log, with no two sharing an id, in storage order.
pub struct LogStore {
    entries: Vec<LogEntry>,
}

impl View for LogStore {
    type V = Seq<EntryView>;

    closed spec fn view(&self) -> Seq<EntryView> {
        entries_view(self.entries@)
    }
}

/// The position of the entry with this id in `v`, if any.
fn find_pos(v: &Vec<LogEntry>, id: &String) -> (r: Option<usize>)
    ensures
        match r {
            Some(i) => i < v.len() && v@[i as int]@.id == id@,
            None => !has_id(entries_view(v@), id@),
        },
{
    let mut i: usize = 0;
    while i < v.len()
        invariant
            i <= v.len(),
            forall|k: int| 0 <= k < i ==> v@[k]@.id != id@,
        decreases v.len() - i,
    {
        if v[i].id == *id {
            return Some(i);
        }
        i = i + 1;
    }
    proof {
        let s = entries_view(v@);
        if has_id(s, id@) {
            let k = choose|k: int| 0 <= k < s.len() && s[k].id == id@;
            assert(v@[k]@.id == id@);
        }
    }
    None
}

impl LogStore {
    pub closed spec fn wf(&self) -> bool {
        ids_unique(self@) && all_keys_unique(self@)
    }

    pub proof fn lemma_wf(&self)
        requires
            self.wf(),
        ensures
            ids_unique(self@),
            all_keys_unique(self@),
    {
    }

    /// An empty log.
    pub fn new() -> (r: LogStore)
        ensures
            r.wf(),
            r@ == Seq::<EntryView>::empty(),
    {
        let r = LogStore { entries: Vec::new() };
        assert(r@ =~= Seq::<EntryView>::empty());
        r
    }

    /// Upsert by id: replaces every field of the entry with `entry`'s id, or appends `entry`.
    pub fn save_entry(&mut self, entry: LogEntry)
        requires
            old(self).wf(),
            keys_unique(entry@.custom_fields),
        ensures
            final(self).wf(),
            final(self)@ == upsert(old(self)@, entry@),
    {
        proof {
            lemma_upsert_unique(self@, entry@);
            lemma_upsert_keys(self@, entry@);
        }
        let ghost s = self@;
        match find_pos(&self.entries, &entry.id) {
            Some(i) => {
                proof {
                    lemma_pos_of_unique(s, i as int);
                }
                self.entries.set(i, entry);
                assert(self@ =~= upsert(s, entry@));
            },
            None => {
                self.entries.push(entry);
                assert(self@ =~= upsert(s, entry@));
            },
        }
    }

    /// Insert only: fails with `EntryExists`, changing nothing, when the id is taken.
    pub fn add_entry(&mut self, entry: LogEntry) -> (r: Result<(), StorageError>)
        requires
            old(self).wf(),
            keys_unique(entry@.custom_fields),
        ensures
            final(self).wf(),
            has_id(old(self)@, entry@.id) ==> (r matches Err(StorageError::EntryExists))
                && final(self)@ == old(self)@,
            !has_id(old(self)@, entry@.id) ==> r is Ok && final(self)@ == old(self)@.push(
                entry@,
            ),
    {
        let ghost s = self@;
        match find_pos(&self.entries, &entry.id) {
            Some(i) => {
                assert(has_id(s, entry@.id)) by {
                    assert(s[i as int].id == entry@.id);
                }
                Err(StorageError::EntryExists)
            },
            None => {
                proof {
                    lemma_upsert_unique(s, entry@);
                    lemma_upsert_keys(s, entry@);
                }
                self.entries.push(entry);
                assert(self@ =~= s.push(entry@));
                Ok(())
            },
        }
    }

    /// A copy of the entry with this id, or `None`.
    pub fn get_entry(&self, id: &String) -> (r: Option<LogEntry>)
        requires
            self.wf(),
        ensures
            match r {
                Some(e) => lookup(self@, id@) == Some(e@),
                None => lookup(self@, id@) is None,
            },
    {
        match find_pos(&self.entries, id) {
            Some(i) => {
                proof {
                    lemma_pos_of_unique(self@, i as int);
                }
                Some(self.entries[i].duplicate())
            },
            None => None,
        }
    }

    /// Copies of all entries, in storage order.
    pub fn list_entries(&self) -> (r: Vec<LogEntry>)
        ensures
            entries_view(r@) == self@,
    {
        copy_entries(&self.entries)
    }

    /// Number of entries.
    pub fn len(&self) -> (r: usize)
        ensures
            r == self@.len(),
    {
        self.entries.len()
    }

    /// Replaces the entry with `entry`'s id; fails with `NotFound`, changing nothing, when
    /// there is none.
    pub fn update_entry(&mut self, entry: LogEntry) -> (r: Result<(), StorageError>)
        requires
            old(self).wf(),
            keys_unique(entry@.custom_fields),
        ensures
            final(self).wf(),
            has_id(old(self)@, entry@.id) ==> r is Ok && final(self)@ == upsert(
                old(self)@,
                entry@,
            ),
            !has_id(old(self)@, entry@.id) ==> final(self)@ == old(self)@ && (r matches Err(
                StorageError::NotFound(m),
            ) && m@ == entry@.id),
    {
        let ghost s = self@;
        match find_pos(&self.entries, &entry.id) {
            Some(i) => {
                proof {
                    lemma_pos_of_unique(s, i as int);
                    lemma_upsert_unique(s, entry@);
                    lemma_upsert_keys(s, entry@);
                }
                self.entries.set(i, entry);
                assert(self@ =~= upsert(s, entry@));
                Ok(())
            },
            None => Err(StorageError::NotFound(entry.id)),
        }
    }

    /// Removes the entry with this id; fails with `NotFound`, changing nothing, when there
    /// is none.
    pub fn delete_entry(&mut self, id: &String) -> (r: Result<(), StorageError>)
        requires
            old(self).wf(),
        ensures
            final(self).wf(),
            final(self)@ == remove_id(old(self)@, id@),
            has_id(old(self)@, id@) <==> r is Ok,
            r matches Err(e) ==> (e matches StorageError::NotFound(m) && m@ == id@),
    {
        let ghost s = self@;
        match find_pos(&self.entries, id) {
            Some(i) => {
                proof {
                    lemma_pos_of_unique(s, i as int);
                }
                self.entries.remove(i);
                assert(self@ =~= s.remove(i as int));
                assert(ids_unique(self@)) by {
                    assert forall|a: int, b: int|
                        0 <= a < self@.len() && 0 <= b < self@.len() && a != b implies self@[a].id
                        != self@[b].id by {
                        let a2 = if a < i { a } else { a + 1 };
                        let b2 = if b < i { b } else { b + 1 };
                        assert(self@[a] == s[a2]);
                        assert(self@[b] == s[b2]);
                    }
                }
                assert(all_keys_unique(self@)) by {
                    assert forall|a: int| 0 <= a < self@.len() implies keys_unique(
                        #[trigger] self@[a].custom_fields,
                    ) by {
                        let a2 = if a < i { a } else { a + 1 };
                        assert(self@[a] == s[a2]);
                    }
                }
                Ok(())
            },
            None => Err(StorageError::NotFound(id.clone())),
        }
    }

    /// Removes every entry.
    pub fn clear(&mut self)
        ensures
            final(self).wf(),
            final(self)@ == Seq::<EntryView>::empty(),
    {
        self.entries.clear();
        assert(self@ =~= Seq::<EntryView>::empty());
    }

    /// Upserts every entry of `entries`, first to last.
    pub fn save_all(&mut self, entries: Vec<LogEntry>)
        requires
            old(self).wf(),
            all_keys_unique(entries_view(entries@)),
        ensures
            final(self).wf(),
            final(self)@ == upsert_all(old(self)@, entries_view(entries@)),
    {
        let ghost s = self@;
        let ghost l = entries_view(entries@);
        let mut i: usize = 0;
        while i < entries.len()
            invariant
                i <= entries.len(),
                l == entries_view(entries@),
                all_keys_unique(l),
                self.wf(),
                self@ == upsert_all(s, l.subrange(0, i as int)),
            decreases entries.len() - i,
        {
            let e = entries[i].duplicate();
            assert(keys_unique(l[i as int].custom_fields));
            self.save_entry(e);
            proof {
                let p = l.subrange(0, i + 1);
                assert(p.drop_last() =~= l.subrange(0, i as int));
                assert(p.last() == entries@[i as int]@);
            }
            i = i + 1;
        }
        assert(l.subrange(0, l.len() as int) =~= l);
    }
}

} // verus!
