//! Figures about a log: how many contacts, on which bands, in which modes.
use vstd::prelude::*;
use crate::record::LogEntry;

verus! {

/// The band a frequency in hertz falls in, edges included; `Other` outside them.
pub open spec fn band_label(hz: u64) -> Seq<char> {
    if 1_800_000 <= hz <= 2_000_000 {
        "160m"@
    } else if 3_500_000 <= hz <= 4_000_000 {
        "80m"@
    } else if 7_000_000 <= hz <= 7_300_000 {
        "40m"@
    } else if 14_000_000 <= hz <= 14_350_000 {
        "20m"@
    } else if 21_000_000 <= hz <= 21_450_000 {
        "15m"@
    } else if 28_000_000 <= hz <= 29_700_000 {
        "10m"@
    } else if 50_000_000 <= hz <= 54_000_000 {
        "6m"@
    } else if 144_000_000 <= hz <= 148_000_000 {
        "2m"@
    } else {
        "Other"@
    }
}

/// The band a frequency in hertz falls in.
pub fn band_of(hz: u64) -> (r: &'static str)
    ensures
        r@ == band_label(hz),
{
    if 1_800_000 <= hz && hz <= 2_000_000 {
        "160m"
    } else if 3_500_000 <= hz && hz <= 4_000_000 {
        "80m"
    } else if 7_000_000 <= hz && hz <= 7_300_000 {
        "40m"
    } else if 14_000_000 <= hz && hz <= 14_350_000 {
        "20m"
    } else if 21_000_000 <= hz && hz <= 21_450_000 {
        "15m"
    } else if 28_000_000 <= hz && hz <= 29_700_000 {
        "10m"
    } else if 50_000_000 <= hz && hz <= 54_000_000 {
        "6m"
    } else if 144_000_000 <= hz && hz <= 148_000_000 {
        "2m"
    } else {
        "Other"
    }
}

/// How often `k` occurs in `s`.
pub open spec fn occurrences(s: Seq<Seq<char>>, k: Seq<char>) -> nat
    decreases s.len(),
{
    if s.len() == 0 {
        0
    } else {
        occurrences(s.drop_last(), k) + if s.last() == k {
            1nat
        } else {
            0nat
        }
    }
}

/// `t` counts the texts of `s`: one entry per distinct text, in order of first
/// appearance, with the number of times it occurs.
pub open spec fn is_tally(t: Seq<(Seq<char>, usize)>, s: Seq<Seq<char>>) -> bool {
    &&& forall|i: int, j: int| 0 <= i < t.len() && 0 <= j < t.len() && i != j ==> t[i].0 != t[j].0
    &&& forall|i: int| 0 <= i < t.len() ==> #[trigger] t[i].1 == occurrences(s, t[i].0)
    &&& forall|k: int|
        0 <= k < s.len() ==> exists|i: int| 0 <= i < t.len() && t[i].0 == #[trigger] s[k]
    &&& forall|i: int| 0 <= i < t.len() ==> #[trigger] t[i].1 >= 1
}

pub open spec fn texts(v: Seq<String>) -> Seq<Seq<char>> {
    v.map_values(|s: String| s@)
}

pub open spec fn tally_view(v: Seq<(String, usize)>) -> Seq<(Seq<char>, usize)> {
    v.map_values(|p: (String, usize)| (p.0@, p.1))
}

proof fn lemma_occurrences_bound(s: Seq<Seq<char>>, k: Seq<char>)
    ensures
        occurrences(s, k) <= s.len(),
    decreases s.len(),
{
    if s.len() > 0 {
        lemma_occurrences_bound(s.drop_last(), k);
    }
}

fn find_key(t: &Vec<(String, usize)>, k: &String) -> (r: Option<usize>)
    ensures
        match r {
            Some(i) => i < t.len() && t@[i as int].0@ == k@,
            None => forall|j: int| 0 <= j < t.len() ==> t@[j].0@ != k@,
        },
{
    let mut i: usize = 0;
    while i < t.len()
        invariant
            i <= t.len(),
            forall|j: int| 0 <= j < i ==> t@[j].0@ != k@,
        decreases t.len() - i,
    {
        if t[i].0 == *k {
            return Some(i);
        }
        i = i + 1;
    }
    None
}

/// Counts the texts of `keys`.
pub fn tally(keys: &Vec<String>) -> (r: Vec<(String, usize)>)
    ensures
        is_tally(tally_view(r@), texts(keys@)),
{
    let ghost all = texts(keys@);
    let mut t: Vec<(String, usize)> = Vec::new();
    let mut n: usize = 0;
    while n < keys.len()
        invariant
            n <= keys.len(),
            all == texts(keys@),
            is_tally(tally_view(t@), all.subrange(0, n as int)),
        decreases keys.len() - n,
    {
        let ghost pre = all.subrange(0, n as int);
        let ghost nxt = all.subrange(0, n + 1);
        let ghost tv = tally_view(t@);
        let k = &keys[n];
        proof {
            assert(nxt.drop_last() =~= pre);
            assert(nxt.last() == k@);
        }
        let pos = find_key(&t, k);
        if let Some(i) = pos {
            proof {
                lemma_occurrences_bound(pre, k@);
                assert(tv[i as int].0 == k@);
                assert(tv[i as int].1 == occurrences(pre, k@));
            }
            let c = t[i].1 + 1;
            let key = t[i].0.clone();
            t.set(i, (key, c));
            proof {
                let tv2 = tally_view(t@);
                assert(tv2 =~= tv.update(i as int, (k@, c)));
                assert forall|j: int| 0 <= j < tv2.len() implies #[trigger] tv2[j].1 == occurrences(
                    nxt,
                    tv2[j].0,
                ) by {
                    assert(occurrences(nxt, tv2[j].0) == occurrences(pre, tv2[j].0) + if k@
                        == tv2[j].0 {
                        1nat
                    } else {
                        0nat
                    });
                }
                assert forall|m: int| 0 <= m < nxt.len() implies exists|j: int|
                    0 <= j < tv2.len() && tv2[j].0 == #[trigger] nxt[m] by {
                    if m < n {
                        assert(nxt[m] == pre[m]);
                        let j = choose|j: int| 0 <= j < tv.len() && tv[j].0 == pre[m];
                        assert(tv2[j].0 == nxt[m]);
                    } else {
                        assert(tv2[i as int].0 == nxt[m]);
                    }
                }
            }
        } else {
            proof {
                lemma_occurrences_bound(pre, k@);
            }
            t.push((k.clone(), 1));
            proof {
                let tv2 = tally_view(t@);
                assert(tv2 =~= tv.push((k@, 1usize)));
                assert(occurrences(pre, k@) == 0) by {
                    if occurrences(pre, k@) > 0 {
                        lemma_occurrence_found(pre, k@);
                        let m = choose|m: int| 0 <= m < pre.len() && pre[m] == k@;
                        let j = choose|j: int| 0 <= j < tv.len() && tv[j].0 == pre[m];
                    }
                }
                assert forall|j: int| 0 <= j < tv2.len() implies #[trigger] tv2[j].1 == occurrences(
                    nxt,
                    tv2[j].0,
                ) by {
                    assert(occurrences(nxt, tv2[j].0) == occurrences(pre, tv2[j].0) + if k@
                        == tv2[j].0 {
                        1nat
                    } else {
                        0nat
                    });
                }
                assert forall|m: int| 0 <= m < nxt.len() implies exists|j: int|
                    0 <= j < tv2.len() && tv2[j].0 == #[trigger] nxt[m] by {
                    if m < n {
                        assert(nxt[m] == pre[m]);
                        let j = choose|j: int| 0 <= j < tv.len() && tv[j].0 == pre[m];
                        assert(tv2[j].0 == nxt[m]);
                    } else {
                        assert(tv2[tv.len() as int].0 == nxt[m]);
                    }
                }
            }
        }
        n = n + 1;
    }
    assert(all.subrange(0, keys.len() as int) =~= all);
    t
}

proof fn lemma_occurrence_found(s: Seq<Seq<char>>, k: Seq<char>)
    requires
        occurrences(s, k) > 0,
    ensures
        exists|m: int| 0 <= m < s.len() && s[m] == k,
    decreases s.len(),
{
    if s.last() != k {
        lemma_occurrence_found(s.drop_last(), k);
        let m = choose|m: int| 0 <= m < s.drop_last().len() && s.drop_last()[m] == k;
        assert(s[m] == k);
    } else {
        assert(s[s.len() - 1] == k);
    }
}

/// The callsigns of the entries, in order.
pub fn callsigns(entries: &Vec<LogEntry>) -> (r: Vec<String>)
    ensures
        r.len() == entries.len(),
        forall|i: int| 0 <= i < r.len() ==> #[trigger] r@[i]@ == entries@[i]@.callsign,
{
    let mut r: Vec<String> = Vec::new();
    let mut i: usize = 0;
    while i < entries.len()
        invariant
            i <= entries.len(),
            r.len() == i,
            forall|j: int| 0 <= j < i ==> #[trigger] r@[j]@ == entries@[j]@.callsign,
        decreases entries.len() - i,
    {
        r.push(entries[i].callsign.clone());
        i = i + 1;
    }
    r
}

/// The modes of the entries, in order.
pub fn modes(entries: &Vec<LogEntry>) -> (r: Vec<String>)
    ensures
        r.len() == entries.len(),
        forall|i: int| 0 <= i < r.len() ==> #[trigger] r@[i]@ == entries@[i]@.mode,
{
    let mut r: Vec<String> = Vec::new();
    let mut i: usize = 0;
    while i < entries.len()
        invariant
            i <= entries.len(),
            r.len() == i,
            forall|j: int| 0 <= j < i ==> #[trigger] r@[j]@ == entries@[j]@.mode,
        decreases entries.len() - i,
    {
        r.push(entries[i].mode.clone());
        i = i + 1;
    }
    r
}

/// The band of each entry, in order.
pub fn bands(entries: &Vec<LogEntry>) -> (r: Vec<String>)
    ensures
        r.len() == entries.len(),
        forall|i: int| 0 <= i < r.len() ==> #[trigger] r@[i]@ == band_label(entries@[i].frequency),
{
    let mut r: Vec<String> = Vec::new();
    let mut i: usize = 0;
    while i < entries.len()
        invariant
            i <= entries.len(),
            r.len() == i,
            forall|j: int| 0 <= j < i ==> #[trigger] r@[j]@ == band_label(entries@[j].frequency),
        decreases entries.len() - i,
    {
        r.push(band_of(entries[i].frequency).to_string());
        i = i + 1;
    }
    r
}

} // verus!
