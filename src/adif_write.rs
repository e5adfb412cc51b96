//! Writing records as ADIF text.
use vstd::prelude::*;
use crate::adif::{
    upper, upper_text, enc_field, enc_fields, opt_field, enc_entry, encode,
    name_of, date_text, time_text, dxcc_text, power_text, required_fields,
    optional_fields, byte_len,
};
use crate::adif_read::name_chars;
use crate::numtext::{dec, push_dec, push_fixed, push_padded};
use crate::record::{EntryView, LogEntry, entries_view, opt_text, pairs_text};
use crate::text::{chars_of, string_of};

verus! {

fn upper_of(c: char) -> (r: char)
    ensures
        r == upper(c),
{
    if 'a' <= c && c <= 'z' {
        ((c as u8) - 32) as char
    } else {
        c
    }
}

proof fn lemma_enc_fields_concat(a: Seq<(Seq<char>, Seq<char>)>, b: Seq<(Seq<char>, Seq<char>)>)
    ensures
        enc_fields(a + b) == enc_fields(a) + enc_fields(b),
    decreases a.len(),
{
    if a.len() == 0 {
        assert(a + b =~= b);
        assert(enc_fields(a) + enc_fields(b) =~= enc_fields(b));
    } else {
        assert((a + b).drop_first() =~= a.drop_first() + b);
        assert((a + b)[0] == a[0]);
        lemma_enc_fields_concat(a.drop_first(), b);
        assert(enc_fields(a + b) =~= enc_fields(a) + enc_fields(b));
    }
}

proof fn lemma_enc_fields_one(n: Seq<char>, v: Seq<char>)
    ensures
        enc_fields(seq![(n, v)]) == enc_field(n, v),
{
    let l = seq![(n, v)];
    assert(l.drop_first() =~= Seq::<(Seq<char>, Seq<char>)>::empty());
    assert(l[0] == (n, v));
    assert(enc_fields(l.drop_first()) == Seq::<char>::empty());
    assert(enc_fields(l) == enc_field(n, v) + enc_fields(l.drop_first()));
    assert(enc_field(n, v) + Seq::<char>::empty() =~= enc_field(n, v));
}

proof fn lemma_encode_push(r: Seq<EntryView>, e: EntryView)
    ensures
        encode(r.push(e)) == encode(r) + enc_entry(e),
    decreases r.len(),
{
    if r.len() == 0 {
        assert(r.push(e).drop_first() =~= Seq::<EntryView>::empty());
        assert(r.push(e)[0] == e);
        assert(encode(Seq::<EntryView>::empty()) == Seq::<char>::empty());
        assert(encode(r.push(e)) == enc_entry(e) + encode(r.push(e).drop_first()));
        assert(encode(r.push(e)) =~= encode(r) + enc_entry(e));
    } else {
        assert(r.push(e)[0] == r[0]);
        assert(r.push(e).drop_first() =~= r.drop_first().push(e));
        lemma_encode_push(r.drop_first(), e);
        assert(encode(r.push(e)) =~= encode(r) + enc_entry(e));
    }
}

/// Appends `<NAME:LEN>value`.
fn push_field(out: &mut Vec<char>, name: &Vec<char>, v: &String)
    ensures
        final(out)@ == old(out)@ + enc_field(name@, v@),
{
    out.push('<');
    let mut i: usize = 0;
    while i < name.len()
        invariant
            i <= name.len(),
            out@ == old(out)@ + seq!['<'] + upper_text(name@.subrange(0, i as int)),
        decreases name.len() - i,
    {
        out.push(upper_of(name[i]));
        i = i + 1;
        assert(out@ =~= old(out)@ + seq!['<'] + upper_text(name@.subrange(0, i as int)));
    }
    assert(name@.subrange(0, name.len() as int) =~= name@);
    out.push(':');
    let vs = v.as_str();
    let len = vs.as_bytes().len();
    assert(len == byte_len(v@));
    let ghost before_len = out@;
    push_dec(out, len as u64);
    out.push('>');
    let chars = chars_of(vs);
    let ghost mid = out@;
    assert(mid =~= old(out)@ + (seq!['<'] + upper_text(name@) + seq![':'] + dec(byte_len(v@)) + seq!['>']));
    let mut k: usize = 0;
    while k < chars.len()
        invariant
            k <= chars.len(),
            out@ == mid + chars@.subrange(0, k as int),
        decreases chars.len() - k,
    {
        out.push(chars[k]);
        k = k + 1;
        assert(out@ =~= mid + chars@.subrange(0, k as int));
    }
    assert(chars@.subrange(0, chars.len() as int) =~= chars@);
    assert(out@ =~= old(out)@ + enc_field(name@, v@));
}

/// Appends the field of tag `t` if `o` holds a value.
fn push_opt(out: &mut Vec<char>, t: usize, o: &Option<String>)
    requires
        t < 18,
    ensures
        final(out)@ == old(out)@ + enc_fields(opt_field(t as nat, opt_text(*o))),
{
    match o {
        Some(v) => {
            push_field(out, &name_chars(t), v);
            proof {
                lemma_enc_fields_one(name_of(t as nat), v@);
            }
        },
        None => {
            assert(enc_fields(Seq::<(Seq<char>, Seq<char>)>::empty()) =~= Seq::<char>::empty());
            assert(out@ =~= old(out)@ + Seq::<char>::empty());
        },
    }
}

fn push_named(
    out: &mut Vec<char>,
    t: usize,
    v: &String,
    base: Ghost<Seq<char>>,
    l: Ghost<Seq<(Seq<char>, Seq<char>)>>,
)
    requires
        t < 18,
        old(out)@ == base@ + enc_fields(l@),
    ensures
        final(out)@ == base@ + enc_fields(l@ + seq![(name_of(t as nat), v@)]),
{
    push_field(out, &name_chars(t), v);
    proof {
        lemma_enc_fields_concat(l@, seq![(name_of(t as nat), v@)]);
        lemma_enc_fields_one(name_of(t as nat), v@);
        assert(out@ =~= base@ + enc_fields(l@ + seq![(name_of(t as nat), v@)]));
    }
}

fn push_required(out: &mut Vec<char>, e: &LogEntry)
    ensures
        final(out)@ == old(out)@ + enc_fields(required_fields(e@)),
{
    let ghost base = old(out)@;
    let ts = e.timestamp;
    let mut d: Vec<char> = Vec::new();
    push_padded(&mut d, ts.year as u64, 4);
    push_padded(&mut d, ts.month as u64, 2);
    push_padded(&mut d, ts.day as u64, 2);
    assert(d@ =~= date_text(ts));
    let mut t: Vec<char> = Vec::new();
    push_padded(&mut t, ts.hour as u64, 2);
    push_padded(&mut t, ts.minute as u64, 2);
    push_padded(&mut t, ts.second as u64, 2);
    assert(t@ =~= time_text(ts));
    let mut f: Vec<char> = Vec::new();
    push_fixed(&mut f, e.frequency, 6);
    let ds = string_of(&d);
    let tms = string_of(&t);
    let fs = string_of(&f);
    push_field(out, &name_chars(0), &e.id);
    proof {
        lemma_enc_fields_one(name_of(0), e@.id);
    }
    let ghost l = seq![(name_of(0), e@.id)];
    push_named(out, 1, &e.callsign, Ghost(base), Ghost(l));
    let ghost l = l + seq![(name_of(1), e@.callsign)];
    push_named(out, 2, &ds, Ghost(base), Ghost(l));
    let ghost l = l + seq![(name_of(2), ds@)];
    push_named(out, 3, &tms, Ghost(base), Ghost(l));
    let ghost l = l + seq![(name_of(3), tms@)];
    push_named(out, 4, &fs, Ghost(base), Ghost(l));
    let ghost l = l + seq![(name_of(4), fs@)];
    push_named(out, 5, &e.mode, Ghost(base), Ghost(l));
    let ghost l = l + seq![(name_of(5), e@.mode)];
    assert(l =~= required_fields(e@));
}

fn push_opt_step(
    out: &mut Vec<char>,
    t: usize,
    o: &Option<String>,
    base: Ghost<Seq<char>>,
    l: Ghost<Seq<(Seq<char>, Seq<char>)>>,
)
    requires
        t < 18,
        old(out)@ == base@ + enc_fields(l@),
    ensures
        final(out)@ == base@ + enc_fields(l@ + opt_field(t as nat, opt_text(*o))),
{
    push_opt(out, t, o);
    proof {
        lemma_enc_fields_concat(l@, opt_field(t as nat, opt_text(*o)));
        assert(out@ =~= base@ + enc_fields(l@ + opt_field(t as nat, opt_text(*o))));
    }
}

fn push_optional(out: &mut Vec<char>, e: &LogEntry)
    ensures
        final(out)@ == old(out)@ + enc_fields(optional_fields(e@)),
{
    let ghost base = old(out)@;
    let dx = match e.dxcc {
        Some(x) => {
            let mut v: Vec<char> = Vec::new();
            push_dec(&mut v, x as u64);
            Some(string_of(&v))
        },
        None => None,
    };
    assert(opt_text(dx) == dxcc_text(e@.dxcc));
    let pw = match e.power {
        Some(x) => {
            let mut v: Vec<char> = Vec::new();
            push_fixed(&mut v, x, 3);
            Some(string_of(&v))
        },
        None => None,
    };
    assert(opt_text(pw) == power_text(e@.power));
    push_opt(out, 6, &e.rst_sent);
    let ghost l = opt_field(6, e@.rst_sent);
    push_opt_step(out, 7, &e.rst_received, Ghost(base), Ghost(l));
    let ghost l = l + opt_field(7, e@.rst_received);
    push_opt_step(out, 8, &e.notes, Ghost(base), Ghost(l));
    let ghost l = l + opt_field(8, e@.notes);
    push_opt_step(out, 9, &e.name, Ghost(base), Ghost(l));
    let ghost l = l + opt_field(9, e@.name);
    push_opt_step(out, 10, &e.qth, Ghost(base), Ghost(l));
    let ghost l = l + opt_field(10, e@.qth);
    push_opt_step(out, 11, &e.state, Ghost(base), Ghost(l));
    let ghost l = l + opt_field(11, e@.state);
    push_opt_step(out, 12, &e.country, Ghost(base), Ghost(l));
    let ghost l = l + opt_field(12, e@.country);
    push_opt_step(out, 13, &dx, Ghost(base), Ghost(l));
    let ghost l = l + opt_field(13, dxcc_text(e@.dxcc));
    push_opt_step(out, 14, &e.band, Ghost(base), Ghost(l));
    let ghost l = l + opt_field(14, e@.band);
    push_opt_step(out, 15, &e.operator, Ghost(base), Ghost(l));
    let ghost l = l + opt_field(15, e@.operator);
    push_opt_step(out, 16, &e.grid, Ghost(base), Ghost(l));
    let ghost l = l + opt_field(16, e@.grid);
    push_opt_step(out, 17, &pw, Ghost(base), Ghost(l));
    let ghost l = l + opt_field(17, power_text(e@.power));
    assert(l == optional_fields(e@));
}

fn push_custom(out: &mut Vec<char>, e: &LogEntry)
    ensures
        final(out)@ == old(out)@ + enc_fields(e@.custom_fields),
{
    let ghost base = old(out)@;
    let ghost c = pairs_text(e.custom_fields@);
    let mut k: usize = 0;
    assert(enc_fields(c.subrange(0, 0)) =~= Seq::<char>::empty());
    assert(out@ =~= base + enc_fields(c.subrange(0, 0)));
    while k < e.custom_fields.len()
        invariant
            k <= e.custom_fields.len(),
            c == pairs_text(e.custom_fields@),
            out@ == base + enc_fields(c.subrange(0, k as int)),
        decreases e.custom_fields.len() - k,
    {
        let key = chars_of(e.custom_fields[k].0.as_str());
        push_field(out, &key, &e.custom_fields[k].1);
        proof {
            let pre = c.subrange(0, k as int);
            assert(c[k as int] == (key@, e.custom_fields@[k as int].1@));
            assert(c.subrange(0, k + 1) =~= pre + seq![c[k as int]]);
            lemma_enc_fields_concat(pre, seq![c[k as int]]);
            lemma_enc_fields_one(key@, e.custom_fields@[k as int].1@);
        }
        k = k + 1;
    }
    assert(c.subrange(0, e.custom_fields.len() as int) =~= c);
}

/// Appends one record: its fields, then `<EOR>` and a line break.
fn push_entry(out: &mut Vec<char>, e: &LogEntry)
    ensures
        final(out)@ == old(out)@ + enc_entry(e@),
{
    let ghost base = old(out)@;
    push_required(out, e);
    push_optional(out, e);
    push_custom(out, e);
    proof {
        lemma_enc_fields_concat(required_fields(e@), optional_fields(e@));
        lemma_enc_fields_concat(required_fields(e@) + optional_fields(e@), e@.custom_fields);
    }
    out.push('<');
    out.push('E');
    out.push('O');
    out.push('R');
    out.push('>');
    out.push('\n');
    assert(out@ =~= base + enc_entry(e@));
}

/// The ADIF text of `entries`, in order: each record's fields, then `<EOR>` and a line
/// break.
pub fn entries_to_adif(entries: &Vec<LogEntry>) -> (r: String)
    ensures
        r@ == encode(entries_view(entries@)),
{
    let mut out: Vec<char> = Vec::new();
    let ghost all = entries_view(entries@);
    let mut i: usize = 0;
    assert(encode(all.subrange(0, 0)) =~= Seq::<char>::empty()) by {
        assert(all.subrange(0, 0).len() == 0);
    }
    while i < entries.len()
        invariant
            i <= entries.len(),
            all == entries_view(entries@),
            out@ == encode(all.subrange(0, i as int)),
        decreases entries.len() - i,
    {
        push_entry(&mut out, &entries[i]);
        proof {
            assert(all.subrange(0, i + 1) =~= all.subrange(0, i as int).push(all[i as int]));
            lemma_encode_push(all.subrange(0, i as int), all[i as int]);
        }
        i = i + 1;
    }
    assert(all.subrange(0, entries.len() as int) =~= all);
    string_of(&out)
}

} // verus!
