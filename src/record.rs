//! A logged contact and its value as plain sequences.
use vstd::prelude::*;

verus! {

/// A UTC instant, to the second.
#[derive(Clone, Copy, Debug, PartialEq, Eq, Structural)]
pub struct Timestamp {
    pub year: u16,
    pub month: u8,
    pub day: u8,
    pub hour: u8,
    pub minute: u8,
    pub second: u8,
}

pub open spec fn is_leap_year(y: int) -> bool {
    (y % 4 == 0 && y % 100 != 0) || y % 400 == 0
}

pub open spec fn days_in_month(y: int, m: int) -> int {
    if m == 2 {
        if is_leap_year(y) { 29 } else { 28 }
    } else if m == 4 || m == 6 || m == 9 || m == 11 {
        30
    } else {
        31
    }
}

impl Timestamp {
    /// A real calendar date with a four-digit year and a time of day.
    pub open spec fn valid(self) -> bool {
        &&& self.year <= 9999
        &&& 1 <= self.month <= 12
        &&& 1 <= self.day <= days_in_month(self.year as int, self.month as int)
        &&& self.hour < 24
        &&& self.minute < 60
        &&& self.second < 60
    }

    /// Whether this is a valid instant.
    pub fn is_valid(&self) -> (r: bool)
        ensures
            r == self.valid(),
    {
        let leap = (self.year % 4 == 0 && self.year % 100 != 0) || self.year % 400 == 0;
        let dim: u8 = if self.month == 2 {
            if leap { 29 } else { 28 }
        } else if self.month == 4 || self.month == 6 || self.month == 9 || self.month == 11 {
            30
        } else {
            31
        };
        self.year <= 9999 && 1 <= self.month && self.month <= 12 && 1 <= self.day && self.day
            <= dim && self.hour < 24 && self.minute < 60 && self.second < 60
    }
}

/// One logged contact.
///
/// `frequency` is in hertz and `power` in milliwatts; `custom_fields` holds
/// extension data as key/value pairs, in the order they were added.
#[derive(Clone, Debug, PartialEq, Eq)]
pub struct LogEntry {
    pub id: String,
    pub timestamp: Timestamp,
    pub callsign: String,
    pub frequency: u64,
    pub mode: String,
    pub rst_sent: Option<String>,
    pub rst_received: Option<String>,
    pub notes: Option<String>,
    pub name: Option<String>,
    pub qth: Option<String>,
    pub state: Option<String>,
    pub country: Option<String>,
    pub dxcc: Option<u32>,
    pub band: Option<String>,
    pub operator: Option<String>,
    pub grid: Option<String>,
    pub power: Option<u64>,
    pub custom_fields: Vec<(String, String)>,
}

/// The value of a `LogEntry`, with every text as its characters.
pub struct EntryView {
    pub id: Seq<char>,
    pub timestamp: Timestamp,
    pub callsign: Seq<char>,
    pub frequency: u64,
    pub mode: Seq<char>,
    pub rst_sent: Option<Seq<char>>,
    pub rst_received: Option<Seq<char>>,
    pub notes: Option<Seq<char>>,
    pub name: Option<Seq<char>>,
    pub qth: Option<Seq<char>>,
    pub state: Option<Seq<char>>,
    pub country: Option<Seq<char>>,
    pub dxcc: Option<u32>,
    pub band: Option<Seq<char>>,
    pub operator: Option<Seq<char>>,
    pub grid: Option<Seq<char>>,
    pub power: Option<u64>,
    pub custom_fields: Seq<(Seq<char>, Seq<char>)>,
}

pub open spec fn opt_text(o: Option<String>) -> Option<Seq<char>> {
    match o {
        Some(s) => Some(s@),
        None => None,
    }
}

pub open spec fn pair_text(p: (String, String)) -> (Seq<char>, Seq<char>) {
    (p.0@, p.1@)
}

pub open spec fn pairs_text(v: Seq<(String, String)>) -> Seq<(Seq<char>, Seq<char>)> {
    v.map_values(|p: (String, String)| pair_text(p))
}

impl View for LogEntry {
    type V = EntryView;

    open spec fn view(&self) -> EntryView {
        EntryView {
            id: self.id@,
            timestamp: self.timestamp,
            callsign: self.callsign@,
            frequency: self.frequency,
            mode: self.mode@,
            rst_sent: opt_text(self.rst_sent),
            rst_received: opt_text(self.rst_received),
            notes: opt_text(self.notes),
            name: opt_text(self.name),
            qth: opt_text(self.qth),
            state: opt_text(self.state),
            country: opt_text(self.country),
            dxcc: self.dxcc,
            band: opt_text(self.band),
            operator: opt_text(self.operator),
            grid: opt_text(self.grid),
            power: self.power,
            custom_fields: pairs_text(self.custom_fields@),
        }
    }
}

/// The views of a sequence of entries.
pub open spec fn entries_view(v: Seq<LogEntry>) -> Seq<EntryView> {
    v.map_values(|e: LogEntry| e@)
}

pub fn copy_opt_text(o: &Option<String>) -> (r: Option<String>)
    ensures
        opt_text(r) == opt_text(*o),
{
    match o {
        Some(s) => Some(s.clone()),
        None => None,
    }
}

pub fn copy_pairs(v: &Vec<(String, String)>) -> (r: Vec<(String, String)>)
    ensures
        pairs_text(r@) == pairs_text(v@),
{
    let mut r: Vec<(String, String)> = Vec::new();
    let mut i: usize = 0;
    while i < v.len()
        invariant
            i <= v.len(),
            pairs_text(r@) == pairs_text(v@.subrange(0, i as int)),
        decreases v.len() - i,
    {
        let p = (v[i].0.clone(), v[i].1.clone());
        let ghost before = r@;
        r.push(p);
        proof {
            assert(pair_text(p) == pair_text(v@[i as int]));
            assert(pairs_text(r@) =~= pairs_text(before).push(pair_text(p)));
            assert(v@.subrange(0, i + 1) =~= v@.subrange(0, i as int).push(v@[i as int]));
            assert(pairs_text(v@.subrange(0, i + 1)) =~= pairs_text(v@.subrange(0, i as int)).push(pair_text(v@[i as int])));
        }
        i = i + 1;
    }
    assert(v@.subrange(0, v.len() as int) == v@);
    r
}

impl LogEntry {
    /// An independent copy with the same value.
    pub fn duplicate(&self) -> (r: LogEntry)
        ensures
            r@ == self@,
    {
        LogEntry {
            id: self.id.clone(),
            timestamp: self.timestamp,
            callsign: self.callsign.clone(),
            frequency: self.frequency,
            mode: self.mode.clone(),
            rst_sent: copy_opt_text(&self.rst_sent),
            rst_received: copy_opt_text(&self.rst_received),
            notes: copy_opt_text(&self.notes),
            name: copy_opt_text(&self.name),
            qth: copy_opt_text(&self.qth),
            state: copy_opt_text(&self.state),
            country: copy_opt_text(&self.country),
            dxcc: self.dxcc,
            band: copy_opt_text(&self.band),
            operator: copy_opt_text(&self.operator),
            grid: copy_opt_text(&self.grid),
            power: self.power,
            custom_fields: copy_pairs(&self.custom_fields),
        }
    }
}

/// Copies every entry of `v`, in order.
pub fn copy_entries(v: &Vec<LogEntry>) -> (r: Vec<LogEntry>)
    ensures
        entries_view(r@) == entries_view(v@),
{
    let mut r: Vec<LogEntry> = Vec::new();
    let mut i: usize = 0;
    while i < v.len()
        invariant
            i <= v.len(),
            entries_view(r@) == entries_view(v@.subrange(0, i as int)),
        decreases v.len() - i,
    {
        let e = v[i].duplicate();
        let ghost before = r@;
        r.push(e);
        proof {
            assert(entries_view(r@) =~= entries_view(before).push(e@));
            assert(v@.subrange(0, i + 1) =~= v@.subrange(0, i as int).push(v@[i as int]));
            assert(entries_view(v@.subrange(0, i + 1)) =~= entries_view(v@.subrange(0, i as int)).push(v@[i as int]@));
        }
        i = i + 1;
    }
    assert(v@.subrange(0, v.len() as int) == v@);
    r
}

} // verus!
