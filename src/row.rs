//! The relational form of a record: one row, one column per field, the instant as
//! RFC 3339 text and the custom fields as one JSON object.
use vstd::prelude::*;
use chrono::{Datelike, Timelike};
use crate::adif::keys_unique;
use crate::error::StorageError;
use crate::numtext::{all_digits, digit_val, is_digit, lemma_padded, padded, parse_dec, pow10};
use crate::record::{EntryView, LogEntry, Timestamp, copy_opt_text, opt_text, pairs_text};

verus! {

/// The RFC 3339 text of a UTC instant with a four-digit year, to the second:
/// `YYYY-MM-DDTHH:MM:SS+00:00`.
pub open spec fn rfc3339_text(ts: Timestamp) -> Seq<char> {
    padded(ts.year as nat, 4) + seq!['-'] + padded(ts.month as nat, 2) + seq!['-'] + padded(
        ts.day as nat,
        2,
    ) + seq!['T'] + padded(ts.hour as nat, 2) + seq![':'] + padded(ts.minute as nat, 2) + seq![
        ':',
    ] + padded(ts.second as nat, 2) + seq!['+', '0', '0', ':', '0', '0']
}

/// `a` comes before `b` in character order: at the first place they differ, `a` has the
/// smaller character.
pub open spec fn text_before(a: Seq<char>, b: Seq<char>) -> bool {
    exists|i: int|
        0 <= i < a.len() && i < b.len() && a[i] < b[i] && forall|j: int| 0 <= j < i ==> a[j] == b[j]
}

/// `a` is an earlier instant than `b`.
pub open spec fn stamp_before(a: Timestamp, b: Timestamp) -> bool {
    if a.year != b.year {
        a.year < b.year
    } else if a.month != b.month {
        a.month < b.month
    } else if a.day != b.day {
        a.day < b.day
    } else if a.hour != b.hour {
        a.hour < b.hour
    } else if a.minute != b.minute {
        a.minute < b.minute
    } else {
        a.second < b.second
    }
}

proof fn lemma_before_concat(x: Seq<char>, p: Seq<char>, y: Seq<char>, q: Seq<char>)
    requires
        x.len() == y.len(),
    ensures
        text_before(x + p, y + q) <==> (text_before(x, y) || (x == y && text_before(p, q))),
{
    let a = x + p;
    let b = y + q;
    if text_before(a, b) {
        let i = choose|i: int|
            0 <= i < a.len() && i < b.len() && a[i] < b[i] && forall|j: int|
                0 <= j < i ==> a[j] == b[j];
        if i < x.len() {
            assert(x[i] == a[i] && y[i] == b[i]);
            assert forall|j: int| 0 <= j < i implies x[j] == y[j] by {
                assert(a[j] == b[j]);
            }
        } else {
            assert(x =~= y) by {
                assert forall|j: int| 0 <= j < x.len() implies x[j] == y[j] by {
                    assert(a[j] == b[j]);
                }
            }
            let k = i - x.len();
            assert(p[k] == a[i] && q[k] == b[i]);
            assert forall|j: int| 0 <= j < k implies p[j] == q[j] by {
                assert(a[j + x.len()] == b[j + x.len()]);
            }
        }
    }
    if text_before(x, y) {
        let i = choose|i: int|
            0 <= i < x.len() && i < y.len() && x[i] < y[i] && forall|j: int|
                0 <= j < i ==> x[j] == y[j];
        assert(a[i] == x[i] && b[i] == y[i]);
        assert forall|j: int| 0 <= j < i implies a[j] == b[j] by {
            assert(a[j] == x[j] && b[j] == y[j]);
        }
    }
    if x == y && text_before(p, q) {
        let k = choose|k: int|
            0 <= k < p.len() && k < q.len() && p[k] < q[k] && forall|j: int|
                0 <= j < k ==> p[j] == q[j];
        let i = k + x.len();
        assert(a[i] == p[k] && b[i] == q[k]);
        assert forall|j: int| 0 <= j < i implies a[j] == b[j] by {
            if j < x.len() {
                assert(a[j] == x[j] && b[j] == y[j]);
            } else {
                assert(a[j] == p[j - x.len()] && b[j] == q[j - x.len()]);
            }
        }
    }
}

/// For digit strings of one length, character order is numeric order.
proof fn lemma_digits_order(x: Seq<char>, y: Seq<char>)
    requires
        x.len() == y.len(),
        all_digits(x),
        all_digits(y),
    ensures
        text_before(x, y) <==> parse_dec(x) < parse_dec(y),
        x == y <==> parse_dec(x) == parse_dec(y),
    decreases x.len(),
{
    if x.len() == 0 {
        assert(x =~= y);
    } else {
        let x1 = x.drop_last();
        let y1 = y.drop_last();
        let c = x.last();
        let d = y.last();
        assert(all_digits(x1)) by {
            assert forall|i: int| 0 <= i < x1.len() implies is_digit(#[trigger] x1[i]) by {
                assert(x1[i] == x[i]);
            }
        }
        assert(all_digits(y1)) by {
            assert forall|i: int| 0 <= i < y1.len() implies is_digit(#[trigger] y1[i]) by {
                assert(y1[i] == y[i]);
            }
        }
        lemma_digits_order(x1, y1);
        assert(x =~= x1 + seq![c]);
        assert(y =~= y1 + seq![d]);
        lemma_before_concat(x1, seq![c], y1, seq![d]);
        assert(is_digit(c) && is_digit(d)) by {
            assert(is_digit(x[x.len() - 1]));
            assert(is_digit(y[y.len() - 1]));
        }
        assert(text_before(seq![c], seq![d]) <==> c < d) by {
            if c < d {
                assert(seq![c][0] == c && seq![d][0] == d);
            }
        }
        assert(c < d <==> digit_val(c) < digit_val(d));
        assert(c == d <==> digit_val(c) == digit_val(d));
        let px = parse_dec(x1);
        let py = parse_dec(y1);
        assert(parse_dec(x) == px * 10 + digit_val(c));
        assert(parse_dec(y) == py * 10 + digit_val(d));
        assert(digit_val(c) < 10 && digit_val(d) < 10);
        if px < py {
            assert(px * 10 + 9 < py * 10) by (nonlinear_arith)
                requires
                    px < py,
            ;
        } else if py < px {
            assert(py * 10 + 9 < px * 10) by (nonlinear_arith)
                requires
                    py < px,
            ;
            assert(x1 != y1);
        }
        if x == y {
            assert(x1 =~= y1);
        }
        if x1 == y1 && c == d {
            assert(x =~= y);
        }
    }
}

proof fn lemma_field_order(m: nat, n: nat, w: nat)
    requires
        m < pow10(w),
        n < pow10(w),
        w >= 1,
    ensures
        padded(m, w).len() == w,
        padded(n, w).len() == w,
        text_before(padded(m, w), padded(n, w)) <==> m < n,
        padded(m, w) == padded(n, w) <==> m == n,
{
    lemma_padded(m, w);
    lemma_padded(n, w);
    lemma_digits_order(padded(m, w), padded(n, w));
}

proof fn lemma_sep_order(c: Seq<char>)
    ensures
        !text_before(c, c),
{
}

/// For valid instants, the stored RFC 3339 texts are in character order exactly when the
/// instants are in time order.
pub proof fn lemma_rfc3339_order(a: Timestamp, b: Timestamp)
    requires
        a.valid(),
        b.valid(),
    ensures
        text_before(rfc3339_text(a), rfc3339_text(b)) <==> stamp_before(a, b),
{
    reveal_with_fuel(pow10, 5);
    let ya = padded(a.year as nat, 4);
    let yb = padded(b.year as nat, 4);
    let moa = padded(a.month as nat, 2);
    let mob = padded(b.month as nat, 2);
    let da = padded(a.day as nat, 2);
    let db = padded(b.day as nat, 2);
    let ha = padded(a.hour as nat, 2);
    let hb = padded(b.hour as nat, 2);
    let mia = padded(a.minute as nat, 2);
    let mib = padded(b.minute as nat, 2);
    let sa = padded(a.second as nat, 2);
    let sb = padded(b.second as nat, 2);
    lemma_field_order(a.year as nat, b.year as nat, 4);
    lemma_field_order(a.month as nat, b.month as nat, 2);
    lemma_field_order(a.day as nat, b.day as nat, 2);
    lemma_field_order(a.hour as nat, b.hour as nat, 2);
    lemma_field_order(a.minute as nat, b.minute as nat, 2);
    lemma_field_order(a.second as nat, b.second as nat, 2);
    let dash = seq!['-'];
    let tee = seq!['T'];
    let colon = seq![':'];
    let zone = seq!['+', '0', '0', ':', '0', '0'];
    lemma_sep_order(dash);
    lemma_sep_order(tee);
    lemma_sep_order(colon);
    lemma_sep_order(zone);
    let a1 = ya + dash;
    let b1 = yb + dash;
    lemma_before_concat(ya, dash, yb, dash);
    let a2 = a1 + moa;
    let b2 = b1 + mob;
    lemma_before_concat(a1, moa, b1, mob);
    let a3 = a2 + dash;
    let b3 = b2 + dash;
    lemma_before_concat(a2, dash, b2, dash);
    let a4 = a3 + da;
    let b4 = b3 + db;
    lemma_before_concat(a3, da, b3, db);
    let a5 = a4 + tee;
    let b5 = b4 + tee;
    lemma_before_concat(a4, tee, b4, tee);
    let a6 = a5 + ha;
    let b6 = b5 + hb;
    lemma_before_concat(a5, ha, b5, hb);
    let a7 = a6 + colon;
    let b7 = b6 + colon;
    lemma_before_concat(a6, colon, b6, colon);
    let a8 = a7 + mia;
    let b8 = b7 + mib;
    lemma_before_concat(a7, mia, b7, mib);
    let a9 = a8 + colon;
    let b9 = b8 + colon;
    lemma_before_concat(a8, colon, b8, colon);
    let a10 = a9 + sa;
    let b10 = b9 + sb;
    lemma_before_concat(a9, sa, b9, sb);
    lemma_before_concat(a10, zone, b10, zone);
    lemma_concat_eq(ya, dash, yb, dash);
    lemma_concat_eq(a1, moa, b1, mob);
    lemma_concat_eq(a2, dash, b2, dash);
    lemma_concat_eq(a3, da, b3, db);
    lemma_concat_eq(a4, tee, b4, tee);
    lemma_concat_eq(a5, ha, b5, hb);
    lemma_concat_eq(a6, colon, b6, colon);
    lemma_concat_eq(a7, mia, b7, mib);
    lemma_concat_eq(a8, colon, b8, colon);
    lemma_concat_eq(a9, sa, b9, sb);
}

proof fn lemma_concat_eq(x: Seq<char>, p: Seq<char>, y: Seq<char>, q: Seq<char>)
    requires
        x.len() == y.len(),
    ensures
        (x + p == y + q) <==> (x == y && p == q),
{
    if x + p == y + q {
        assert(x =~= (x + p).subrange(0, x.len() as int));
        assert(y =~= (y + q).subrange(0, y.len() as int));
        assert(p =~= (x + p).subrange(x.len() as int, (x + p).len() as int));
        assert(q =~= (y + q).subrange(y.len() as int, (y + q).len() as int));
    }
}

/// The UTC year, month, day, hour, minute and second that chrono reads from RFC 3339
/// text, if it reads one.
pub uninterp spec fn rfc3339_fields(s: Seq<char>) -> Option<(int, int, int, int, int, int)>;

/// The JSON object that serde_json writes for string keys and values.
pub uninterp spec fn json_object_text(pairs: Seq<(Seq<char>, Seq<char>)>) -> Seq<char>;

/// The key/value pairs that serde_json reads from a JSON object of strings, in key order.
pub uninterp spec fn json_object_pairs(s: Seq<char>) -> Option<Seq<(Seq<char>, Seq<char>)>>;

/// Relies on chrono's `NaiveDate::from_ymd_opt` and `NaiveDate::and_hms_opt`, which accept
/// every existing date and time of day, and `DateTime::to_rfc3339`, which writes a year in
/// 0..=9999 as four digits, every other field as two, no fraction for a whole second, and
/// `+00:00` for UTC; `DateTime::parse_from_rfc3339` reads that text back as the same UTC
/// instant.
#[verifier::external_body]
fn write_rfc3339(ts: Timestamp) -> (r: Option<String>)
    ensures
        ts.valid() ==> r is Some,
        ts.valid() ==> r->0@ == rfc3339_text(ts),
        ts.valid() ==> rfc3339_fields(r->0@) == Some(stamp_fields(ts)),
{
    chrono::NaiveDate::from_ymd_opt(ts.year as i32, ts.month as u32, ts.day as u32)
        .and_then(|d| d.and_hms_opt(ts.hour as u32, ts.minute as u32, ts.second as u32))
        .map(|t| t.and_utc().to_rfc3339())
}

/// Relies on chrono's `DateTime::parse_from_rfc3339`, taken to UTC, and its `Datelike` /
/// `Timelike` getters, which give a month in 1..=12, a day in 1..=31, an hour in 0..=23
/// and a minute and second in 0..=59.
#[verifier::external_body]
fn read_rfc3339(s: &str) -> (r: Option<(i32, u32, u32, u32, u32, u32)>)
    ensures
        match r {
            Some(p) => rfc3339_fields(s@) == Some(
                (p.0 as int, p.1 as int, p.2 as int, p.3 as int, p.4 as int, p.5 as int),
            ) && 1 <= p.1 <= 12 && 1 <= p.2 <= 31 && p.3 < 24 && p.4 < 60 && p.5 < 60,
            None => rfc3339_fields(s@) is None,
        },
{
    chrono::DateTime::parse_from_rfc3339(s).ok().map(|d| {
        let u = d.with_timezone(&chrono::Utc);
        (u.year(), u.month(), u.day(), u.hour(), u.minute(), u.second())
    })
}

/// Relies on serde_json's `Map` and `Value::to_string`, which write a JSON object whose
/// text depends on the pairs alone; with distinct keys, `serde_json::from_str` reads every
/// pair of it back.
#[verifier::external_body]
fn write_json_object(pairs: &Vec<(String, String)>) -> (r: String)
    ensures
        r@ == json_object_text(pairs_text(pairs@)),
        keys_unique(pairs_text(pairs@)) ==> json_object_pairs(r@) is Some,
        keys_unique(pairs_text(pairs@)) ==> json_object_pairs(r@)->0.to_multiset() == pairs_text(
            pairs@,
        ).to_multiset(),
{
    let map: serde_json::Map<String, serde_json::Value> = pairs
        .iter()
        .map(|(k, v)| (k.clone(), serde_json::Value::String(v.clone())))
        .collect();
    serde_json::Value::Object(map).to_string()
}

/// Relies on `serde_json::from_str` into a `BTreeMap` of strings: the pairs read depend on
/// the text alone, and a map yields each key once.
#[verifier::external_body]
fn read_json_object(s: &str) -> (r: Option<Vec<(String, String)>>)
    ensures
        match r {
            Some(v) => json_object_pairs(s@) == Some(pairs_text(v@)) && keys_unique(
                pairs_text(v@),
            ),
            None => json_object_pairs(s@) is None,
        },
{
    serde_json::from_str::<std::collections::BTreeMap<String, String>>(s)
        .ok()
        .map(|m| m.into_iter().collect())
}

/// One row of the relational store: frequency in hertz, power in milliwatts, the instant
/// as RFC 3339 text and the custom fields as a JSON object.
#[derive(Clone, Debug, PartialEq, Eq)]
pub struct SqlRow {
    pub id: String,
    pub timestamp: String,
    pub callsign: String,
    pub frequency: i64,
    pub mode: String,
    pub rst_sent: Option<String>,
    pub rst_received: Option<String>,
    pub notes: Option<String>,
    pub name: Option<String>,
    pub qth: Option<String>,
    pub state: Option<String>,
    pub country: Option<String>,
    pub dxcc: Option<i64>,
    pub band: Option<String>,
    pub operator: Option<String>,
    pub grid: Option<String>,
    pub power: Option<i64>,
    pub custom_fields: Option<String>,
}

/// The text columns of a row hold the record's texts.
pub open spec fn same_texts(row: SqlRow, e: LogEntry) -> bool {
    &&& row.id@ == e.id@
    &&& row.callsign@ == e.callsign@
    &&& row.mode@ == e.mode@
    &&& opt_text(row.rst_sent) == opt_text(e.rst_sent)
    &&& opt_text(row.rst_received) == opt_text(e.rst_received)
    &&& opt_text(row.notes) == opt_text(e.notes)
    &&& opt_text(row.name) == opt_text(e.name)
    &&& opt_text(row.qth) == opt_text(e.qth)
    &&& opt_text(row.state) == opt_text(e.state)
    &&& opt_text(row.country) == opt_text(e.country)
    &&& opt_text(row.band) == opt_text(e.band)
    &&& opt_text(row.operator) == opt_text(e.operator)
    &&& opt_text(row.grid) == opt_text(e.grid)
}

/// The year, month, day, hour, minute and second of an instant.
pub open spec fn stamp_fields(ts: Timestamp) -> (int, int, int, int, int, int) {
    (
        ts.year as int,
        ts.month as int,
        ts.day as int,
        ts.hour as int,
        ts.minute as int,
        ts.second as int,
    )
}

/// `row` is what is stored for `e`.
pub open spec fn row_written(row: SqlRow, e: LogEntry) -> bool {
    &&& e.timestamp.valid()
    &&& e.frequency <= i64::MAX
    &&& (e.power matches Some(p) ==> p <= i64::MAX)
    &&& same_texts(row, e)
    &&& row.timestamp@ == rfc3339_text(e.timestamp)
    &&& rfc3339_fields(row.timestamp@) == Some(stamp_fields(e.timestamp))
    &&& row.frequency == e.frequency
    &&& row.dxcc == (match e.dxcc {
        Some(d) => Some(d as i64),
        None => None,
    })
    &&& row.power == (match e.power {
        Some(p) => Some(p as i64),
        None => None,
    })
    &&& row.custom_fields matches Some(c) && c@ == json_object_text(pairs_text(e.custom_fields@))
        && (keys_unique(pairs_text(e.custom_fields@)) ==> json_object_pairs(c@) is Some
        && json_object_pairs(c@)->0.to_multiset() == pairs_text(e.custom_fields@).to_multiset())
}

/// `row` holds no record: its instant does not read as a valid one, or its frequency or
/// power is negative, or its DXCC code does not fit 32 bits.
pub open spec fn row_refused(row: SqlRow) -> bool {
    ||| !(rfc3339_fields(row.timestamp@) matches Some(p) && stamp_of_fields(p) is Some)
    ||| row.frequency < 0
    ||| (row.power matches Some(p) && p < 0)
    ||| (row.dxcc matches Some(d) && (d < 0 || d > u32::MAX))
}

/// `e` is the record read from `row`.
pub open spec fn row_read(row: SqlRow, e: LogEntry) -> bool {
    &&& same_texts(row, e)
    &&& rfc3339_fields(row.timestamp@) matches Some(p) && stamp_of_fields(p) == Some(e.timestamp)
    &&& e.frequency as int == row.frequency as int
    &&& e.dxcc == (match row.dxcc {
        Some(d) => Some(d as u32),
        None => None,
    })
    &&& e.power == (match row.power {
        Some(p) => Some(p as u64),
        None => None,
    })
    &&& pairs_text(e.custom_fields@) == custom_of_column(row.custom_fields)
    &&& keys_unique(pairs_text(e.custom_fields@))
}

/// A record stored in a row reads back as the same record: every field equal, the custom
/// fields equal as key/value pairs (the column keeps them in key order).
pub proof fn lemma_row_round_trip(e: LogEntry, row: SqlRow, x: LogEntry)
    requires
        row_written(row, e),
        keys_unique(pairs_text(e.custom_fields@)),
    ensures
        !row_refused(row),
        row_read(row, x) ==> x@ == (EntryView { custom_fields: x@.custom_fields, ..e@ }),
        row_read(row, x) ==> x@.custom_fields.to_multiset() == e@.custom_fields.to_multiset(),
{
    let ts = e.timestamp;
    assert(stamp_of_fields(stamp_fields(ts)) == Some(ts));
}

/// The row stored for a record. Refused with `Validation` when the instant is not a
/// valid one, or the frequency or power does not fit a signed 64-bit column.
pub fn entry_to_row(e: &LogEntry) -> (r: Result<SqlRow, StorageError>)
    ensures
        match r {
            Ok(row) => row_written(row, *e),
            Err(err) => (err is Validation) && (!e.timestamp.valid() || e.frequency > i64::MAX
                || (e.power matches Some(p) && p > i64::MAX)),
        },
{
    if !e.timestamp.is_valid() {
        return Err(StorageError::Validation("the instant of the contact is not valid".to_string()));
    }
    if e.frequency > 0x7FFF_FFFF_FFFF_FFFF {
        return Err(StorageError::Validation("the frequency is too large to store".to_string()));
    }
    let power = match e.power {
        Some(p) => {
            if p > 0x7FFF_FFFF_FFFF_FFFF {
                return Err(StorageError::Validation("the power is too large to store".to_string()));
            }
            Some(p as i64)
        },
        None => None,
    };
    let timestamp = match write_rfc3339(e.timestamp) {
        Some(t) => t,
        None => {
            return Err(StorageError::Validation("the instant of the contact is not valid".to_string()));
        },
    };
    let dxcc = match e.dxcc {
        Some(d) => Some(d as i64),
        None => None,
    };
    Ok(SqlRow {
        id: e.id.clone(),
        timestamp,
        callsign: e.callsign.clone(),
        frequency: e.frequency as i64,
        mode: e.mode.clone(),
        rst_sent: copy_opt_text(&e.rst_sent),
        rst_received: copy_opt_text(&e.rst_received),
        notes: copy_opt_text(&e.notes),
        name: copy_opt_text(&e.name),
        qth: copy_opt_text(&e.qth),
        state: copy_opt_text(&e.state),
        country: copy_opt_text(&e.country),
        dxcc,
        band: copy_opt_text(&e.band),
        operator: copy_opt_text(&e.operator),
        grid: copy_opt_text(&e.grid),
        power,
        custom_fields: Some(write_json_object(&e.custom_fields)),
    })
}

/// The instant that RFC 3339 fields name, if it is a valid one.
pub open spec fn stamp_of_fields(p: (int, int, int, int, int, int)) -> Option<Timestamp> {
    if 0 <= p.0 <= 9999 && 1 <= p.1 <= 12 && 1 <= p.2 <= 31 && 0 <= p.3 < 24 && 0 <= p.4 < 60
        && 0 <= p.5 < 60 {
        let ts = Timestamp {
            year: p.0 as u16,
            month: p.1 as u8,
            day: p.2 as u8,
            hour: p.3 as u8,
            minute: p.4 as u8,
            second: p.5 as u8,
        };
        if ts.valid() {
            Some(ts)
        } else {
            None
        }
    } else {
        None
    }
}

/// The custom fields a column holds: none for NULL or for text that is not a JSON object
/// of strings.
pub open spec fn custom_of_column(c: Option<String>) -> Seq<(Seq<char>, Seq<char>)> {
    match c {
        Some(t) => match json_object_pairs(t@) {
            Some(p) => p,
            None => Seq::empty(),
        },
        None => Seq::empty(),
    }
}

fn no_pairs() -> (r: Vec<(String, String)>)
    ensures
        pairs_text(r@) == Seq::<(Seq<char>, Seq<char>)>::empty(),
{
    let r: Vec<(String, String)> = Vec::new();
    assert(pairs_text(r@) =~= Seq::<(Seq<char>, Seq<char>)>::empty());
    r
}

/// The record a row holds. Refused with `ParseError` when the instant column does not
/// read as a valid instant with a four-digit year, the frequency or power is negative,
/// or the DXCC code does not fit 32 bits.
pub fn row_to_entry(row: &SqlRow) -> (r: Result<LogEntry, StorageError>)
    ensures
        match r {
            Ok(e) => row_read(*row, e),
            Err(err) => (err is ParseError) && row_refused(*row),
        },
{
    let timestamp = match read_rfc3339(row.timestamp.as_str()) {
        Some((y, mo, d, h, mi, s)) => {
            if 0 <= y && y <= 9999 {
                let ts = Timestamp {
                    year: y as u16,
                    month: mo as u8,
                    day: d as u8,
                    hour: h as u8,
                    minute: mi as u8,
                    second: s as u8,
                };
                if ts.is_valid() {
                    ts
                } else {
                    return Err(StorageError::ParseError("the stored instant is not valid".to_string()));
                }
            } else {
                return Err(StorageError::ParseError("the stored year is out of range".to_string()));
            }
        },
        None => {
            return Err(StorageError::ParseError("the stored instant is not RFC 3339".to_string()));
        },
    };
    if row.frequency < 0 {
        return Err(StorageError::ParseError("the stored frequency is negative".to_string()));
    }
    let power = match row.power {
        Some(p) => {
            if p < 0 {
                return Err(StorageError::ParseError("the stored power is negative".to_string()));
            }
            Some(p as u64)
        },
        None => None,
    };
    let dxcc = match row.dxcc {
        Some(d) => {
            if d < 0 || d > 0xFFFF_FFFF {
                return Err(StorageError::ParseError("the stored DXCC code is out of range".to_string()));
            }
            Some(d as u32)
        },
        None => None,
    };
    let custom_fields = match &row.custom_fields {
        Some(t) => match read_json_object(t.as_str()) {
            Some(v) => v,
            None => no_pairs(),
        },
        None => no_pairs(),
    };
    Ok(LogEntry {
        id: row.id.clone(),
        timestamp,
        callsign: row.callsign.clone(),
        frequency: row.frequency as u64,
        mode: row.mode.clone(),
        rst_sent: copy_opt_text(&row.rst_sent),
        rst_received: copy_opt_text(&row.rst_received),
        notes: copy_opt_text(&row.notes),
        name: copy_opt_text(&row.name),
        qth: copy_opt_text(&row.qth),
        state: copy_opt_text(&row.state),
        country: copy_opt_text(&row.country),
        dxcc,
        band: copy_opt_text(&row.band),
        operator: copy_opt_text(&row.operator),
        grid: copy_opt_text(&row.grid),
        power,
        custom_fields,
    })
}

} // verus!
