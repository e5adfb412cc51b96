//! Reading ADIF text into records.
use vstd::prelude::*;
use vstd::utf8::{encode_utf8, char_is_scalar};
use crate::adif::{
    MODELED_TAGS, TAG_ID, TAG_CALL, TAG_QSO_DATE, TAG_TIME_ON, TAG_FREQ, TAG_MODE,
    TAG_RST_SENT, TAG_RST_RCVD, TAG_NOTES, TAG_NAME, TAG_QTH, TAG_STATE, TAG_COUNTRY, TAG_DXCC,
    TAG_BAND, TAG_OPERATOR, TAG_GRID, TAG_TX_PWR, Token, Pending, ScanState, name_of, tag_code,
    lower, lower_text, char_width, name_end, digits_end, type_end, value_end, value_start,
    token_at, empty_pending, has_key, keys_unique, apply_field, parse_stamp,
    parse_dxcc, derived_id, finish, step, scan, decode, };
use crate::error::StorageError;
use crate::numtext::{parse_digits, parse_fixed_at};
use crate::record::{EntryView, LogEntry, Timestamp, entries_view, opt_text, pairs_text};
use crate::store::all_keys_unique;
use crate::text::{chars_of, string_of};

verus! {

pub fn lower_of(c: char) -> (r: char)
    ensures
        r == lower(c),
{
    if 'A' <= c && c <= 'Z' {
        ((c as u8) + 32) as char
    } else {
        c
    }
}

/// Bytes of `c` in UTF-8.
pub fn width_of(c: char) -> (r: u64)
    ensures
        r == char_width(c),
        1 <= r <= 4,
{
    proof {
        char_is_scalar(c);
        assert(seq![c].drop_first() =~= Seq::<char>::empty());
        assert(encode_utf8(seq![c]) == vstd::utf8::encode_scalar(c as u32) + encode_utf8(
            Seq::<char>::empty(),
        ));
        assert(encode_utf8(Seq::<char>::empty()) =~= Seq::<u8>::empty());
    }
    let u = c as u32;
    if u <= 0x7F {
        1
    } else if u <= 0x7FF {
        2
    } else if u <= 0xFFFF {
        3
    } else {
        4
    }
}

/// The lower-case name of modeled tag `t`.
pub fn name_chars(t: usize) -> (r: Vec<char>)
    requires
        t < MODELED_TAGS,
    ensures
        r@ == name_of(t as nat),
{
    let r = if t == 0 {
        vec!['a', 'p', 'p', '_', 'a', 'm', 'l', 'o', 'g', '_', 'i', 'd']
    } else if t == 1 {
        vec!['c', 'a', 'l', 'l']
    } else if t == 2 {
        vec!['q', 's', 'o', '_', 'd', 'a', 't', 'e']
    } else if t == 3 {
        vec!['t', 'i', 'm', 'e', '_', 'o', 'n']
    } else if t == 4 {
        vec!['f', 'r', 'e', 'q']
    } else if t == 5 {
        vec!['m', 'o', 'd', 'e']
    } else if t == 6 {
        vec!['r', 's', 't', '_', 's', 'e', 'n', 't']
    } else if t == 7 {
        vec!['r', 's', 't', '_', 'r', 'c', 'v', 'd']
    } else if t == 8 {
        vec!['n', 'o', 't', 'e', 's']
    } else if t == 9 {
        vec!['n', 'a', 'm', 'e']
    } else if t == 10 {
        vec!['q', 't', 'h']
    } else if t == 11 {
        vec!['s', 't', 'a', 't', 'e']
    } else if t == 12 {
        vec!['c', 'o', 'u', 'n', 't', 'r', 'y']
    } else if t == 13 {
        vec!['d', 'x', 'c', 'c']
    } else if t == 14 {
        vec!['b', 'a', 'n', 'd']
    } else if t == 15 {
        vec!['o', 'p', 'e', 'r', 'a', 't', 'o', 'r']
    } else if t == 16 {
        vec!['g', 'r', 'i', 'd', 's', 'q', 'u', 'a', 'r', 'e']
    } else {
        vec!['t', 'x', '_', 'p', 'w', 'r']
    };
    assert(r@ =~= name_of(t as nat));
    r
}

/// Whether `a` and `b` hold the same characters.
pub fn same_chars(a: &Vec<char>, b: &Vec<char>) -> (r: bool)
    ensures
        r == (a@ == b@),
{
    if a.len() != b.len() {
        return false;
    }
    let mut i: usize = 0;
    while i < a.len()
        invariant
            i <= a.len() == b.len(),
            forall|k: int| 0 <= k < i ==> a@[k] == b@[k],
        decreases a.len() - i,
    {
        if a[i] != b[i] {
            return false;
        }
        i = i + 1;
    }
    assert(a@ =~= b@);
    true
}

fn is_named(n: &Vec<char>, t: usize) -> (r: bool)
    requires
        t < MODELED_TAGS,
    ensures
        r == (n@ == name_of(t as nat)),
{
    same_chars(n, &name_chars(t))
}

/// The code of a lower-case tag name.
pub fn tag_code_of(n: &Vec<char>) -> (r: usize)
    ensures
        r == tag_code(n@),
{
    let len = n.len();
    if len == 12 && is_named(n, 0) {
        0
    } else if len == 4 {
        if n[0] == 'c' && is_named(n, 1) {
            1
        } else if n[0] == 'f' && is_named(n, 4) {
            4
        } else if n[0] == 'm' && is_named(n, 5) {
            5
        } else if n[0] == 'n' && is_named(n, 9) {
            9
        } else if n[0] == 'd' && is_named(n, 13) {
            13
        } else if n[0] == 'b' && is_named(n, 14) {
            14
        } else {
            18
        }
    } else if len == 8 {
        if n[0] == 'q' && is_named(n, 2) {
            2
        } else if n[0] == 'o' && is_named(n, 15) {
            15
        } else if n[4] == 's' && is_named(n, 6) {
            6
        } else if n[4] == 'r' && is_named(n, 7) {
            7
        } else {
            18
        }
    } else if len == 7 {
        if n[0] == 't' && is_named(n, 3) {
            3
        } else if n[0] == 'c' && is_named(n, 12) {
            12
        } else {
            18
        }
    } else if len == 5 {
        if n[0] == 'n' && is_named(n, 8) {
            8
        } else if n[0] == 's' && is_named(n, 11) {
            11
        } else {
            18
        }
    } else if len == 3 && is_named(n, 10) {
        10
    } else if len == 10 && is_named(n, 16) {
        16
    } else if len == 6 && is_named(n, 17) {
        17
    } else {
        18
    }
}

fn name_end_of(s: &Vec<char>, i: usize) -> (r: usize)
    requires
        i <= s.len(),
    ensures
        r as int == name_end(s@, i as int),
        i <= r <= s.len(),
{
    let mut j: usize = i;
    while j < s.len() && !(s[j] == ':' || s[j] == '>' || s[j] == '<')
        invariant
            i <= j <= s.len(),
            name_end(s@, j as int) == name_end(s@, i as int),
        decreases s.len() - j,
    {
        j = j + 1;
    }
    j
}

fn digits_end_of(s: &Vec<char>, i: usize) -> (r: usize)
    requires
        i <= s.len(),
    ensures
        r as int == digits_end(s@, i as int),
        i <= r <= s.len(),
{
    let mut j: usize = i;
    while j < s.len() && '0' <= s[j] && s[j] <= '9'
        invariant
            i <= j <= s.len(),
            digits_end(s@, j as int) == digits_end(s@, i as int),
        decreases s.len() - j,
    {
        j = j + 1;
    }
    j
}

fn type_end_of(s: &Vec<char>, i: usize) -> (r: usize)
    requires
        i <= s.len(),
    ensures
        r as int == type_end(s@, i as int),
        i <= r <= s.len(),
{
    let mut j: usize = i;
    while j < s.len() && s[j] != '>' && s[j] != '<'
        invariant
            i <= j <= s.len(),
            type_end(s@, j as int) == type_end(s@, i as int),
        decreases s.len() - j,
    {
        j = j + 1;
    }
    j
}

fn value_end_of(s: &Vec<char>, i: usize, n: u64) -> (r: Option<usize>)
    requires
        i <= s.len(),
    ensures
        match r {
            Some(e) => e as int == value_end(s@, i as int, n as nat) && i <= e <= s.len(),
            None => value_end(s@, i as int, n as nat) == -1,
        },
{
    let mut j: usize = i;
    let mut m: u64 = n;
    while m > 0
        invariant
            i <= j <= s.len(),
            value_end(s@, j as int, m as nat) == value_end(s@, i as int, n as nat),
        decreases s.len() - j,
    {
        if j >= s.len() {
            return None;
        }
        let w = width_of(s[j]);
        if w >= m {
            return Some(j + 1);
        }
        m = m - w;
        j = j + 1;
    }
    Some(j)
}

fn value_start_of(s: &Vec<char>, k: usize) -> (r: Option<usize>)
    requires
        k <= s.len(),
    ensures
        match r {
            Some(v) => v as int == value_start(s@, k as int) && k < v <= s.len(),
            None => value_start(s@, k as int) == -1,
        },
{
    if k < s.len() && s[k] == '>' {
        Some(k + 1)
    } else if k < s.len() && s[k] == ':' {
        let m = type_end_of(s, k + 1);
        if m < s.len() && s[m] == '>' {
            Some(m + 1)
        } else {
            None
        }
    } else {
        None
    }
}

/// The characters `s[lo..hi]`.
pub fn slice_of(s: &Vec<char>, lo: usize, hi: usize) -> (r: Vec<char>)
    requires
        lo <= hi <= s.len(),
    ensures
        r@ == s@.subrange(lo as int, hi as int),
{
    let mut r: Vec<char> = Vec::new();
    let mut i: usize = lo;
    while i < hi
        invariant
            lo <= i <= hi <= s.len(),
            r@ == s@.subrange(lo as int, i as int),
        decreases hi - i,
    {
        r.push(s[i]);
        i = i + 1;
        assert(r@ =~= s@.subrange(lo as int, i as int));
    }
    r
}

fn lower_slice(s: &Vec<char>, lo: usize, hi: usize) -> (r: Vec<char>)
    requires
        lo <= hi <= s.len(),
    ensures
        r@ == lower_text(s@.subrange(lo as int, hi as int)),
{
    let mut r: Vec<char> = Vec::new();
    let mut i: usize = lo;
    while i < hi
        invariant
            lo <= i <= hi <= s.len(),
            r@ == lower_text(s@.subrange(lo as int, i as int)),
        decreases hi - i,
    {
        r.push(lower_of(s[i]));
        i = i + 1;
        assert(r@ =~= lower_text(s@.subrange(lo as int, i as int)));
    }
    r
}

/// A token as the reader holds it.
pub enum ReadToken {
    Skip,
    Field(Vec<char>, Vec<char>),
    Eor,
    Eoh,
    Truncated,
}

impl View for ReadToken {
    type V = Token;

    open spec fn view(&self) -> Token {
        match self {
            ReadToken::Skip => Token::Skip,
            ReadToken::Field(n, v) => Token::Field(n@, v@),
            ReadToken::Eor => Token::Eor,
            ReadToken::Eoh => Token::Eoh,
            ReadToken::Truncated => Token::Truncated,
        }
    }
}

/// The token at position `i`, and the position after it.
pub fn read_token(s: &Vec<char>, i: usize) -> (r: (ReadToken, usize))
    requires
        i < s.len(),
    ensures
        (r.0@, r.1 as int) == token_at(s@, i as int),
        i < r.1 <= s.len(),
{
    if s[i] != '<' {
        return (ReadToken::Skip, i + 1);
    }
    let j = name_end_of(s, i + 1);
    if j >= s.len() || s[j] == '<' || j == i + 1 {
        return (ReadToken::Skip, i + 1);
    }
    let name = lower_slice(s, i + 1, j);
    if s[j] == '>' {
        let eor = vec!['e', 'o', 'r'];
        let eoh = vec!['e', 'o', 'h'];
        assert(eor@ =~= seq!['e', 'o', 'r']);
        assert(eoh@ =~= seq!['e', 'o', 'h']);
        if same_chars(&name, &eor) {
            return (ReadToken::Eor, j + 1);
        } else if same_chars(&name, &eoh) {
            return (ReadToken::Eoh, j + 1);
        } else {
            return (ReadToken::Skip, j + 1);
        }
    }
    let k = digits_end_of(s, j + 1);
    match parse_digits(s, j + 1, k, 19) {
        None => (ReadToken::Skip, i + 1),
        Some(n) => match value_start_of(s, k) {
            None => (ReadToken::Skip, i + 1),
            Some(vs) => match value_end_of(s, vs, n) {
                None => (ReadToken::Truncated, s.len()),
                Some(e) => {
                    assert(e > i);
                    (ReadToken::Field(name, slice_of(s, vs, e)), e)
                },
            },
        },
    }
}

pub open spec fn opt_chars(o: Option<Vec<char>>) -> Option<Seq<char>> {
    match o {
        Some(v) => Some(v@),
        None => None,
    }
}

pub open spec fn pair_chars(p: (Vec<char>, Vec<char>)) -> (Seq<char>, Seq<char>) {
    (p.0@, p.1@)
}

/// The fields of the record being read.
pub struct ReadPending {
    pub fields: Vec<Option<Vec<char>>>,
    pub custom: Vec<(Vec<char>, Vec<char>)>,
}

impl View for ReadPending {
    type V = Pending;

    open spec fn view(&self) -> Pending {
        Pending {
            fields: self.fields@.map_values(|o: Option<Vec<char>>| opt_chars(o)),
            custom: self.custom@.map_values(|p: (Vec<char>, Vec<char>)| pair_chars(p)),
        }
    }
}

impl ReadPending {
    pub open spec fn wf(&self) -> bool {
        &&& self.fields.len() == MODELED_TAGS
        &&& keys_unique(self@.custom)
    }

    pub fn new() -> (r: ReadPending)
        ensures
            r.wf(),
            r@ == empty_pending(),
    {
        let mut fields: Vec<Option<Vec<char>>> = Vec::new();
        let mut i: usize = 0;
        while i < MODELED_TAGS
            invariant
                i <= MODELED_TAGS,
                fields.len() == i,
                forall|k: int| 0 <= k < i ==> fields@[k] is None,
            decreases MODELED_TAGS - i,
        {
            fields.push(None);
            i = i + 1;
        }
        let r = ReadPending { fields, custom: Vec::new() };
        assert(r@.fields =~= empty_pending().fields);
        assert(r@.custom =~= empty_pending().custom);
        r
    }

    /// Records one field, as `apply_field` says.
    pub fn apply(&mut self, name: Vec<char>, v: Vec<char>)
        requires
            old(self).wf(),
        ensures
            final(self).wf(),
            final(self)@ == apply_field(old(self)@, name@, v@),
    {
        let t = tag_code_of(&name);
        if t < MODELED_TAGS {
            self.fields.set(t, Some(v));
            assert(self@.fields =~= old(self)@.fields.update(t as int, Some(v@)));
            assert(self@.custom =~= old(self)@.custom);
        } else {
            let ghost c = old(self)@.custom;
            let mut i: usize = 0;
            while i < self.custom.len()
                invariant
                    i <= self.custom.len(),
                    *self == *old(self),
                    c == self@.custom,
                    c.len() == self.custom.len(),
                    keys_unique(c),
                    old(self).wf(),
                    t == tag_code(name@),
                    t >= MODELED_TAGS,
                    forall|k: int| 0 <= k < i ==> c[k].0 != name@,
                decreases self.custom.len() - i,
            {
                assert(c[i as int] == pair_chars(self.custom@[i as int]));
                if same_chars(&self.custom[i].0, &name) {
                    let ghost ch = choose|k: int| 0 <= k < c.len() && c[k].0 == name@;
                    assert(c[i as int].0 == name@);
                    assert(has_key(c, name@));
                    assert(ch == i);
                    self.custom.set(i, (name, v));
                    assert(self@.fields =~= old(self)@.fields);
                    assert(self@.custom =~= c.update(i as int, (name@, v@)));
                    assert(keys_unique(self@.custom)) by {
                        assert forall|a: int, b: int|
                            0 <= a < self@.custom.len() && 0 <= b < self@.custom.len() && a
                                != b implies self@.custom[a].0 != self@.custom[b].0 by {
                            assert(self@.custom[a].0 == c[a].0);
                            assert(self@.custom[b].0 == c[b].0);
                        }
                    }
                    return;
                }
                i = i + 1;
            }
            assert(!has_key(c, name@));
            self.custom.push((name, v));
            assert(self@.fields =~= old(self)@.fields);
            assert(self@.custom =~= c.push((name@, v@)));
        }
    }
}

fn opt_string(o: &Option<Vec<char>>) -> (r: Option<String>)
    ensures
        opt_text(r) == opt_chars(*o),
{
    match o {
        Some(v) => Some(string_of(v)),
        None => None,
    }
}

fn custom_strings(v: &Vec<(Vec<char>, Vec<char>)>) -> (r: Vec<(String, String)>)
    ensures
        pairs_text(r@) == v@.map_values(|p: (Vec<char>, Vec<char>)| pair_chars(p)),
{
    let ghost target = v@.map_values(|p: (Vec<char>, Vec<char>)| pair_chars(p));
    let mut r: Vec<(String, String)> = Vec::new();
    let mut i: usize = 0;
    while i < v.len()
        invariant
            i <= v.len(),
            target == v@.map_values(|p: (Vec<char>, Vec<char>)| pair_chars(p)),
            pairs_text(r@) == target.subrange(0, i as int),
        decreases v.len() - i,
    {
        let p = (string_of(&v[i].0), string_of(&v[i].1));
        let ghost before = r@;
        r.push(p);
        proof {
            assert(target[i as int] == pair_chars(v@[i as int]));
            assert(pairs_text(r@) =~= pairs_text(before).push((p.0@, p.1@)));
            assert(target.subrange(0, i + 1) =~= target.subrange(0, i as int).push(target[i as int]));
        }
        i = i + 1;
    }
    assert(target.subrange(0, v.len() as int) =~= target);
    r
}

/// The instant that `YYYYMMDD` and `HHMM[SS]` name, as `parse_stamp` says.
pub fn parse_stamp_of(d: &Vec<char>, t: &Vec<char>) -> (r: Option<Timestamp>)
    ensures
        r == parse_stamp(d@, t@),
{
    if d.len() != 8 || (t.len() != 4 && t.len() != 6) {
        return None;
    }
    let y = parse_digits(d, 0, 4, 4);
    let mo = parse_digits(d, 4, 6, 2);
    let dd = parse_digits(d, 6, 8, 2);
    let h = parse_digits(t, 0, 2, 2);
    let mi = parse_digits(t, 2, 4, 2);
    let sec = if t.len() == 6 {
        parse_digits(t, 4, 6, 2)
    } else {
        Some(0)
    };
    match (y, mo, dd, h, mi, sec) {
        (Some(y), Some(mo), Some(dd), Some(h), Some(mi), Some(sec)) => {
            proof {
                crate::numtext::lemma_parse_bound(d@.subrange(0, 4));
                crate::numtext::lemma_parse_bound(d@.subrange(4, 6));
                crate::numtext::lemma_parse_bound(d@.subrange(6, 8));
                crate::numtext::lemma_parse_bound(t@.subrange(0, 2));
                crate::numtext::lemma_parse_bound(t@.subrange(2, 4));
                crate::numtext::lemma_parse_bound(t@.subrange(4, 6));
                reveal_with_fuel(crate::numtext::pow10, 5);
            }
            let ts = Timestamp {
                year: y as u16,
                month: mo as u8,
                day: dd as u8,
                hour: h as u8,
                minute: mi as u8,
                second: sec as u8,
            };
            if ts.is_valid() {
                Some(ts)
            } else {
                None
            }
        },
        _ => None,
    }
}

fn parse_dxcc_of(v: &Vec<char>) -> (r: Option<u32>)
    ensures
        r == parse_dxcc(v@),
{
    match parse_digits(v, 0, v.len(), 10) {
        Some(x) => {
            assert(v@.subrange(0, v.len() as int) =~= v@);
            if x <= 0xFFFF_FFFF {
                Some(x as u32)
            } else {
                None
            }
        },
        None => {
            assert(v@.subrange(0, v.len() as int) =~= v@);
            None
        },
    }
}

/// The record that the fields read describe, as `finish` says.
pub fn finish_of(p: &ReadPending) -> (r: Option<LogEntry>)
    requires
        p.wf(),
    ensures
        match r {
            Some(e) => finish(p@) == Some(e@),
            None => finish(p@) is None,
        },
{
    let f = &p.fields;
    let (call, mode, freq, d, t) = match (
        &f[TAG_CALL],
        &f[TAG_MODE],
        &f[TAG_FREQ],
        &f[TAG_QSO_DATE],
        &f[TAG_TIME_ON],
    ) {
        (Some(call), Some(mode), Some(freq), Some(d), Some(t)) => (call, mode, freq, d, t),
        _ => {
            return None;
        },
    };
    let frequency = parse_fixed_at(freq, 0, freq.len(), 6);
    let stamp = parse_stamp_of(d, t);
    assert(freq@.subrange(0, freq.len() as int) =~= freq@);
    match (frequency, stamp) {
        (Some(frequency), Some(timestamp)) => {
            let id = match &f[TAG_ID] {
                Some(x) => string_of(x),
                None => {
                    let mut v = slice_of(d, 0, d.len());
                    let mut k: usize = 0;
                    while k < t.len()
                        invariant
                            k <= t.len(),
                            v@ == d@ + t@.subrange(0, k as int),
                        decreases t.len() - k,
                    {
                        v.push(t[k]);
                        k = k + 1;
                        assert(v@ =~= d@ + t@.subrange(0, k as int));
                    }
                    v.push('-');
                    let mut k: usize = 0;
                    let ghost base = v@;
                    while k < call.len()
                        invariant
                            k <= call.len(),
                            v@ == base + call@.subrange(0, k as int),
                        decreases call.len() - k,
                    {
                        v.push(call[k]);
                        k = k + 1;
                        assert(v@ =~= base + call@.subrange(0, k as int));
                    }
                    assert(d@.subrange(0, d.len() as int) =~= d@);
                    assert(t@.subrange(0, t.len() as int) =~= t@);
                    assert(call@.subrange(0, call.len() as int) =~= call@);
                    assert(v@ =~= derived_id(d@, t@, call@));
                    string_of(&v)
                },
            };
            let dxcc = match &f[TAG_DXCC] {
                Some(x) => parse_dxcc_of(x),
                None => None,
            };
            let power = match &f[TAG_TX_PWR] {
                Some(x) => {
                    assert(x@.subrange(0, x.len() as int) =~= x@);
                    parse_fixed_at(x, 0, x.len(), 3)
                },
                None => None,
            };
            let e = LogEntry {
                id,
                timestamp,
                callsign: string_of(call),
                frequency,
                mode: string_of(mode),
                rst_sent: opt_string(&f[TAG_RST_SENT]),
                rst_received: opt_string(&f[TAG_RST_RCVD]),
                notes: opt_string(&f[TAG_NOTES]),
                name: opt_string(&f[TAG_NAME]),
                qth: opt_string(&f[TAG_QTH]),
                state: opt_string(&f[TAG_STATE]),
                country: opt_string(&f[TAG_COUNTRY]),
                dxcc,
                band: opt_string(&f[TAG_BAND]),
                operator: opt_string(&f[TAG_OPERATOR]),
                grid: opt_string(&f[TAG_GRID]),
                power,
                custom_fields: custom_strings(&p.custom),
            };
            Some(e)
        },
        _ => None,
    }
}

/// Reads the records of an ADIF text. Everything up to an `<EOH>` is header and is
/// dropped; a record whose fields lack a callsign, mode, frequency, date or time, or
/// give an invalid one, is skipped and the rest still read. The text is refused only
/// when a field's declared length runs past its end.
pub fn adif_to_entries(content: &str) -> (r: Result<Vec<LogEntry>, StorageError>)
    ensures
        match r {
            Ok(v) => decode(content@) == Some(entries_view(v@)) && all_keys_unique(
                entries_view(v@),
            ),
            Err(e) => decode(content@) is None && e is Adif,
        },
{
    let s = chars_of(content);
    let mut records: Vec<LogEntry> = Vec::new();
    let mut pending = ReadPending::new();
    let mut i: usize = 0;
    assert(entries_view(records@) =~= Seq::<EntryView>::empty());
    while i < s.len()
        invariant
            i <= s.len(),
            s@ == content@,
            pending.wf(),
            all_keys_unique(entries_view(records@)),
            scan(s@, i as int, ScanState { records: entries_view(records@), pending: pending@ })
                == decode(content@),
        decreases s.len() - i,
    {
        let (tok, j) = read_token(&s, i);
        let ghost st = ScanState { records: entries_view(records@), pending: pending@ };
        let ghost tv = tok@;
        match tok {
            ReadToken::Truncated => {
                return Err(StorageError::Adif("a field runs past the end of the text".to_string()));
            },
            ReadToken::Field(n, v) => {
                pending.apply(n, v);
            },
            ReadToken::Eor => {
                match finish_of(&pending) {
                    Some(e) => {
                        records.push(e);
                        assert(entries_view(records@) =~= st.records.push(e@));
                        assert(e@.custom_fields == st.pending.custom);
                    },
                    None => {},
                }
                pending = ReadPending::new();
            },
            ReadToken::Eoh => {
                records = Vec::new();
                pending = ReadPending::new();
                assert(entries_view(records@) =~= Seq::<EntryView>::empty());
            },
            ReadToken::Skip => {},
        }
        assert(ScanState { records: entries_view(records@), pending: pending@ } == step(st, tv));
        i = j;
    }
    Ok(records)
}

} // verus!
