//! ADIF, the tagged-field text interchange format: `<TAG:LEN>value` fields, `<EOR>` after
//! each contact, and an optional free-text header closed by `<EOH>`.
use vstd::prelude::*;
use vstd::utf8::encode_utf8;
use crate::numtext::{
    digits_value, fixed_text, padded, dec, parse_fixed,
};
use crate::record::{EntryView, Timestamp};

verus! {

/// Number of tags with a field of their own in a record; tag codes below it name those
/// fields, and `OTHER_TAG` stands for every other tag.
pub const MODELED_TAGS: usize = 18;

pub const TAG_ID: usize = 0;
pub const TAG_CALL: usize = 1;
pub const TAG_QSO_DATE: usize = 2;
pub const TAG_TIME_ON: usize = 3;
pub const TAG_FREQ: usize = 4;
pub const TAG_MODE: usize = 5;
pub const TAG_RST_SENT: usize = 6;
pub const TAG_RST_RCVD: usize = 7;
pub const TAG_NOTES: usize = 8;
pub const TAG_NAME: usize = 9;
pub const TAG_QTH: usize = 10;
pub const TAG_STATE: usize = 11;
pub const TAG_COUNTRY: usize = 12;
pub const TAG_DXCC: usize = 13;
pub const TAG_BAND: usize = 14;
pub const TAG_OPERATOR: usize = 15;
pub const TAG_GRID: usize = 16;
pub const TAG_TX_PWR: usize = 17;
pub const OTHER_TAG: usize = 18;

/// The lower-case name of each modeled tag.
pub open spec fn name_of(t: nat) -> Seq<char> {
    if t == 0 {
        seq!['a', 'p', 'p', '_', 'a', 'm', 'l', 'o', 'g', '_', 'i', 'd']
    } else if t == 1 {
        seq!['c', 'a', 'l', 'l']
    } else if t == 2 {
        seq!['q', 's', 'o', '_', 'd', 'a', 't', 'e']
    } else if t == 3 {
        seq!['t', 'i', 'm', 'e', '_', 'o', 'n']
    } else if t == 4 {
        seq!['f', 'r', 'e', 'q']
    } else if t == 5 {
        seq!['m', 'o', 'd', 'e']
    } else if t == 6 {
        seq!['r', 's', 't', '_', 's', 'e', 'n', 't']
    } else if t == 7 {
        seq!['r', 's', 't', '_', 'r', 'c', 'v', 'd']
    } else if t == 8 {
        seq!['n', 'o', 't', 'e', 's']
    } else if t == 9 {
        seq!['n', 'a', 'm', 'e']
    } else if t == 10 {
        seq!['q', 't', 'h']
    } else if t == 11 {
        seq!['s', 't', 'a', 't', 'e']
    } else if t == 12 {
        seq!['c', 'o', 'u', 'n', 't', 'r', 'y']
    } else if t == 13 {
        seq!['d', 'x', 'c', 'c']
    } else if t == 14 {
        seq!['b', 'a', 'n', 'd']
    } else if t == 15 {
        seq!['o', 'p', 'e', 'r', 'a', 't', 'o', 'r']
    } else if t == 16 {
        seq!['g', 'r', 'i', 'd', 's', 'q', 'u', 'a', 'r', 'e']
    } else {
        seq!['t', 'x', '_', 'p', 'w', 'r']
    }
}

/// The code of a lower-case tag name: its modeled tag, or `OTHER_TAG`.
pub open spec fn tag_code(n: Seq<char>) -> nat {
    if n.len() == 12 && n == name_of(0) {
        0
    } else if n.len() == 4 {
        if n[0] == 'c' && n == name_of(1) {
            1
        } else if n[0] == 'f' && n == name_of(4) {
            4
        } else if n[0] == 'm' && n == name_of(5) {
            5
        } else if n[0] == 'n' && n == name_of(9) {
            9
        } else if n[0] == 'd' && n == name_of(13) {
            13
        } else if n[0] == 'b' && n == name_of(14) {
            14
        } else {
            18
        }
    } else if n.len() == 8 {
        if n[0] == 'q' && n == name_of(2) {
            2
        } else if n[0] == 'o' && n == name_of(15) {
            15
        } else if n[4] == 's' && n == name_of(6) {
            6
        } else if n[4] == 'r' && n == name_of(7) {
            7
        } else {
            18
        }
    } else if n.len() == 7 {
        if n[0] == 't' && n == name_of(3) {
            3
        } else if n[0] == 'c' && n == name_of(12) {
            12
        } else {
            18
        }
    } else if n.len() == 5 {
        if n[0] == 'n' && n == name_of(8) {
            8
        } else if n[0] == 's' && n == name_of(11) {
            11
        } else {
            18
        }
    } else if n.len() == 3 && n == name_of(10) {
        10
    } else if n.len() == 10 && n == name_of(16) {
        16
    } else if n.len() == 6 && n == name_of(17) {
        17
    } else {
        18
    }
}

pub open spec fn lower(c: char) -> char {
    if 'A' <= c && c <= 'Z' {
        ((c as u32) + 32) as char
    } else {
        c
    }
}

pub open spec fn upper(c: char) -> char {
    if 'a' <= c && c <= 'z' {
        ((c as u32) - 32) as char
    } else {
        c
    }
}

pub open spec fn lower_text(s: Seq<char>) -> Seq<char> {
    s.map_values(|c: char| lower(c))
}

pub open spec fn upper_text(s: Seq<char>) -> Seq<char> {
    s.map_values(|c: char| upper(c))
}

/// Length in bytes of the UTF-8 encoding.
pub open spec fn byte_len(v: Seq<char>) -> nat {
    encode_utf8(v).len()
}

/// Bytes of one character in UTF-8.
pub open spec fn char_width(c: char) -> nat {
    encode_utf8(seq![c]).len()
}

/// What the scanner finds at a position.
pub enum Token {
    /// A character outside any tag, or a tag without meaning here.
    Skip,
    /// A field: its lower-case tag name and its value.
    Field(Seq<char>, Seq<char>),
    /// End of a record.
    Eor,
    /// End of the header.
    Eoh,
    /// A field whose value runs past the end of the text.
    Truncated,
}

pub open spec fn is_stop(c: char) -> bool {
    c == ':' || c == '>' || c == '<'
}

/// End of a tag name starting at `i`: the first `:`, `>` or `<`, or the end.
pub open spec fn name_end(s: Seq<char>, i: int) -> int
    decreases s.len() - i,
{
    if i < 0 || i >= s.len() || is_stop(s[i]) {
        i
    } else {
        name_end(s, i + 1)
    }
}

/// End of the run of digits starting at `i`.
pub open spec fn digits_end(s: Seq<char>, i: int) -> int
    decreases s.len() - i,
{
    if i < 0 || i >= s.len() || !('0' <= s[i] && s[i] <= '9') {
        i
    } else {
        digits_end(s, i + 1)
    }
}

/// End of a data-type indicator starting at `i`: the first `>` or `<`, or the end.
pub open spec fn type_end(s: Seq<char>, i: int) -> int
    decreases s.len() - i,
{
    if i < 0 || i >= s.len() || s[i] == '>' || s[i] == '<' {
        i
    } else {
        type_end(s, i + 1)
    }
}

/// End of a value of `n` bytes starting at `i`: the first position at which at least
/// `n` bytes have been taken, or -1 if the text ends first.
pub open spec fn value_end(s: Seq<char>, i: int, n: nat) -> int
    decreases s.len() - i,
{
    if n == 0 {
        i
    } else if i < 0 || i >= s.len() {
        -1
    } else if char_width(s[i]) >= n {
        i + 1
    } else {
        value_end(s, i + 1, (n - char_width(s[i])) as nat)
    }
}

/// Where the value of a tag with a length starts, when the length digits end at `k`:
/// after `>`, or after `:TYPE>`; -1 if neither follows.
pub open spec fn value_start(s: Seq<char>, k: int) -> int {
    if 0 <= k < s.len() && s[k] == '>' {
        k + 1
    } else if 0 <= k < s.len() && s[k] == ':' && type_end(s, k + 1) < s.len() && s[type_end(
        s,
        k + 1,
    )] == '>' {
        type_end(s, k + 1) + 1
    } else {
        -1
    }
}

/// The token at position `i` of `s`, and the position after it.
pub open spec fn token_at(s: Seq<char>, i: int) -> (Token, int) {
    if s[i] != '<' {
        (Token::Skip, i + 1)
    } else {
        let j = name_end(s, i + 1);
        if j >= s.len() || s[j] == '<' || j == i + 1 {
            (Token::Skip, i + 1)
        } else {
            let name = lower_text(s.subrange(i + 1, j));
            if s[j] == '>' {
                if name == seq!['e', 'o', 'r'] {
                    (Token::Eor, j + 1)
                } else if name == seq!['e', 'o', 'h'] {
                    (Token::Eoh, j + 1)
                } else {
                    (Token::Skip, j + 1)
                }
            } else {
                let k = digits_end(s, j + 1);
                match digits_value(s.subrange(j + 1, k), 19) {
                    None => (Token::Skip, i + 1),
                    Some(n) => {
                        let vs = value_start(s, k);
                        if vs < 0 {
                            (Token::Skip, i + 1)
                        } else {
                            let e = value_end(s, vs, n);
                            if e < 0 {
                                (Token::Truncated, s.len() as int)
                            } else {
                                (Token::Field(name, s.subrange(vs, e)), e)
                            }
                        }
                    },
                }
            }
        }
    }
}

/// The fields of a record being read: one slot per modeled tag, then the other tags'
/// fields by name, in the order first seen.
pub struct Pending {
    pub fields: Seq<Option<Seq<char>>>,
    pub custom: Seq<(Seq<char>, Seq<char>)>,
}

pub open spec fn empty_pending() -> Pending {
    Pending { fields: Seq::new(MODELED_TAGS as nat, |i: int| None), custom: Seq::empty() }
}

pub open spec fn has_key(l: Seq<(Seq<char>, Seq<char>)>, k: Seq<char>) -> bool {
    exists|i: int| 0 <= i < l.len() && l[i].0 == k
}

pub open spec fn keys_unique(l: Seq<(Seq<char>, Seq<char>)>) -> bool {
    forall|i: int, j: int| 0 <= i < l.len() && 0 <= j < l.len() && i != j ==> l[i].0 != l[j].0
}

/// Sets the value of key `k`, in place if it is there, else at the end.
pub open spec fn put_custom(l: Seq<(Seq<char>, Seq<char>)>, k: Seq<char>, v: Seq<char>) -> Seq<
    (Seq<char>, Seq<char>),
> {
    if has_key(l, k) {
        l.update(choose|i: int| 0 <= i < l.len() && l[i].0 == k, (k, v))
    } else {
        l.push((k, v))
    }
}

/// Records one field; a later field with the same tag replaces an earlier one.
pub open spec fn apply_field(p: Pending, name: Seq<char>, v: Seq<char>) -> Pending {
    let t = tag_code(name);
    if t < MODELED_TAGS {
        Pending { fields: p.fields.update(t as int, Some(v)), custom: p.custom }
    } else {
        Pending { fields: p.fields, custom: put_custom(p.custom, name, v) }
    }
}

/// `YYYYMMDD` and `HHMM` or `HHMMSS` as an instant, if they name a valid one.
pub open spec fn parse_stamp(d: Seq<char>, t: Seq<char>) -> Option<Timestamp> {
    if d.len() == 8 && (t.len() == 4 || t.len() == 6) {
        let y = digits_value(d.subrange(0, 4), 4);
        let mo = digits_value(d.subrange(4, 6), 2);
        let dd = digits_value(d.subrange(6, 8), 2);
        let h = digits_value(t.subrange(0, 2), 2);
        let mi = digits_value(t.subrange(2, 4), 2);
        let sec = if t.len() == 6 {
            digits_value(t.subrange(4, 6), 2)
        } else {
            Some(0nat)
        };
        if y is Some && mo is Some && dd is Some && h is Some && mi is Some && sec is Some {
            let ts = Timestamp {
                year: y->0 as u16,
                month: mo->0 as u8,
                day: dd->0 as u8,
                hour: h->0 as u8,
                minute: mi->0 as u8,
                second: sec->0 as u8,
            };
            if ts.valid() {
                Some(ts)
            } else {
                None
            }
        } else {
            None
        }
    } else {
        None
    }
}

/// A DXCC entity code of at most ten digits that fits in 32 bits.
pub open spec fn parse_dxcc(v: Seq<char>) -> Option<u32> {
    match digits_value(v, 10) {
        Some(x) => if x <= u32::MAX {
            Some(x as u32)
        } else {
            None
        },
        None => None,
    }
}

/// The id a record gets when it has none: date, time, a dash, and the callsign.
pub open spec fn derived_id(d: Seq<char>, t: Seq<char>, call: Seq<char>) -> Seq<char> {
    d + t + seq!['-'] + call
}

/// The record that a complete set of fields describes: callsign, mode, frequency, date
/// and time are required; a DXCC code or power that does not read as a number is left
/// out.
pub open spec fn finish(p: Pending) -> Option<EntryView> {
    let f = p.fields;
    if f[TAG_CALL as int] is None || f[TAG_MODE as int] is None || f[TAG_FREQ as int] is None
        || f[TAG_QSO_DATE as int] is None || f[TAG_TIME_ON as int] is None {
        None
    } else {
        let call = f[TAG_CALL as int]->0;
        let d = f[TAG_QSO_DATE as int]->0;
        let t = f[TAG_TIME_ON as int]->0;
        match (parse_fixed(f[TAG_FREQ as int]->0, 6), parse_stamp(d, t)) {
            (Some(freq), Some(ts)) => Some(
                EntryView {
                    id: match f[TAG_ID as int] {
                        Some(x) => x,
                        None => derived_id(d, t, call),
                    },
                    timestamp: ts,
                    callsign: call,
                    frequency: freq as u64,
                    mode: f[TAG_MODE as int]->0,
                    rst_sent: f[TAG_RST_SENT as int],
                    rst_received: f[TAG_RST_RCVD as int],
                    notes: f[TAG_NOTES as int],
                    name: f[TAG_NAME as int],
                    qth: f[TAG_QTH as int],
                    state: f[TAG_STATE as int],
                    country: f[TAG_COUNTRY as int],
                    dxcc: match f[TAG_DXCC as int] {
                        Some(x) => parse_dxcc(x),
                        None => None,
                    },
                    band: f[TAG_BAND as int],
                    operator: f[TAG_OPERATOR as int],
                    grid: f[TAG_GRID as int],
                    power: match f[TAG_TX_PWR as int] {
                        Some(x) => match parse_fixed(x, 3) {
                            Some(w) => Some(w as u64),
                            None => None,
                        },
                        None => None,
                    },
                    custom_fields: p.custom,
                },
            ),
            _ => None,
        }
    }
}

/// The records read so far and the fields of the one being read.
pub struct ScanState {
    pub records: Seq<EntryView>,
    pub pending: Pending,
}

pub open spec fn start_state() -> ScanState {
    ScanState { records: Seq::empty(), pending: empty_pending() }
}

/// The effect of one token. A header ends by dropping everything read before it; a
/// record ends by keeping it if its fields describe one, and skipping it otherwise.
pub open spec fn step(st: ScanState, tok: Token) -> ScanState {
    match tok {
        Token::Field(n, v) => ScanState {
            records: st.records,
            pending: apply_field(st.pending, n, v),
        },
        Token::Eor => ScanState {
            records: match finish(st.pending) {
                Some(e) => st.records.push(e),
                None => st.records,
            },
            pending: empty_pending(),
        },
        Token::Eoh => start_state(),
        _ => st,
    }
}

/// Reads `s` from position `i` on: the records, or `None` if a field is truncated.
pub open spec fn scan(s: Seq<char>, i: int, st: ScanState) -> Option<Seq<EntryView>>
    decreases s.len() - i,
{
    if i < 0 || i >= s.len() {
        Some(st.records)
    } else {
        let (tok, j) = token_at(s, i);
        if tok is Truncated {
            None
        } else if j <= i || j > s.len() {
            None
        } else {
            scan(s, j, step(st, tok))
        }
    }
}

/// The records of an ADIF text, or `None` if a field runs past its end.
pub open spec fn decode(s: Seq<char>) -> Option<Seq<EntryView>> {
    scan(s, 0, start_state())
}

/// `<NAME:LEN>value`, the name in capitals and `LEN` the value's length in bytes.
pub open spec fn enc_field(name: Seq<char>, v: Seq<char>) -> Seq<char> {
    seq!['<'] + upper_text(name) + seq![':'] + dec(byte_len(v)) + seq!['>'] + v
}

pub open spec fn enc_fields(l: Seq<(Seq<char>, Seq<char>)>) -> Seq<char>
    decreases l.len(),
{
    if l.len() == 0 {
        Seq::empty()
    } else {
        enc_field(l[0].0, l[0].1) + enc_fields(l.drop_first())
    }
}

pub open spec fn date_text(ts: Timestamp) -> Seq<char> {
    padded(ts.year as nat, 4) + padded(ts.month as nat, 2) + padded(ts.day as nat, 2)
}

pub open spec fn time_text(ts: Timestamp) -> Seq<char> {
    padded(ts.hour as nat, 2) + padded(ts.minute as nat, 2) + padded(ts.second as nat, 2)
}

pub open spec fn opt_field(t: nat, o: Option<Seq<char>>) -> Seq<(Seq<char>, Seq<char>)> {
    match o {
        Some(v) => seq![(name_of(t), v)],
        None => Seq::empty(),
    }
}

pub open spec fn dxcc_text(o: Option<u32>) -> Option<Seq<char>> {
    match o {
        Some(x) => Some(dec(x as nat)),
        None => None,
    }
}

pub open spec fn power_text(o: Option<u64>) -> Option<Seq<char>> {
    match o {
        Some(x) => Some(fixed_text(x as nat, 3)),
        None => None,
    }
}

/// The fields every record has: id, callsign, date, time, frequency in MHz and mode.
pub open spec fn required_fields(e: EntryView) -> Seq<(Seq<char>, Seq<char>)> {
    seq![
        (name_of(0), e.id),
        (name_of(1), e.callsign),
        (name_of(2), date_text(e.timestamp)),
        (name_of(3), time_text(e.timestamp)),
        (name_of(4), fixed_text(e.frequency as nat, 6)),
        (name_of(5), e.mode),
    ]
}

/// The optional fields that are present, in tag order.
pub open spec fn optional_fields(e: EntryView) -> Seq<(Seq<char>, Seq<char>)> {
    opt_field(6, e.rst_sent) + opt_field(7, e.rst_received) + opt_field(8, e.notes) + opt_field(
        9,
        e.name,
    ) + opt_field(10, e.qth) + opt_field(11, e.state) + opt_field(12, e.country) + opt_field(
        13,
        dxcc_text(e.dxcc),
    ) + opt_field(14, e.band) + opt_field(15, e.operator) + opt_field(16, e.grid) + opt_field(
        17,
        power_text(e.power),
    )
}

/// The fields written for a record, in order: the required ones, the optional ones that
/// are present, then the custom fields.
pub open spec fn entry_fields(e: EntryView) -> Seq<(Seq<char>, Seq<char>)> {
    required_fields(e) + optional_fields(e) + e.custom_fields
}

pub open spec fn eor_text() -> Seq<char> {
    seq!['<', 'E', 'O', 'R', '>', '\n']
}

/// One record: its fields, then `<EOR>` and a line break.
pub open spec fn enc_entry(e: EntryView) -> Seq<char> {
    enc_fields(entry_fields(e)) + eor_text()
}

/// The ADIF text of a sequence of records.
pub open spec fn encode(r: Seq<EntryView>) -> Seq<char>
    decreases r.len(),
{
    if r.len() == 0 {
        Seq::empty()
    } else {
        enc_entry(r[0]) + encode(r.drop_first())
    }
}

} // verus!
