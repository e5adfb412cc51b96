//! Reading back what was written gives the records written.
use vstd::prelude::*;
use vstd::utf8::{encode_utf8, encode_scalar, char_is_scalar};
use crate::adif::{
    MODELED_TAGS, OTHER_TAG, Token, Pending, ScanState, name_of, tag_code, lower, lower_text,
    upper_text, byte_len, char_width, is_stop, name_end, digits_end, value_end, value_start,
    token_at, enc_field, enc_fields, apply_field, scan, step, eor_text, opt_field, has_key,
    keys_unique, date_text, time_text, dxcc_text, power_text, required_fields, optional_fields,
    entry_fields, empty_pending, finish, parse_stamp, encode, decode, enc_entry,
};
use crate::numtext::{
    fixed_text, padded, numeric_chars, lemma_padded, lemma_fixed_round_trip, lemma_dec_shape,
    lemma_fixed_text_shape, lemma_pow10_mono, dec, digits_value, pow10, is_digit, lemma_dec,
    lemma_dec_len,
};
use crate::record::{EntryView, Timestamp};

verus! {

/// A character allowed in a tag name written by this library.
pub open spec fn is_key_char(c: char) -> bool {
    ('a' <= c && c <= 'z') || ('0' <= c && c <= '9') || c == '_'
}

/// A non-empty lower-case tag name: letters, digits and underscores.
pub open spec fn is_key(n: Seq<char>) -> bool {
    n.len() > 0 && forall|i: int| 0 <= i < n.len() ==> is_key_char(#[trigger] n[i])
}

proof fn lemma_upper_key(n: Seq<char>)
    requires
        is_key(n),
    ensures
        lower_text(upper_text(n)) == n,
        upper_text(n).len() == n.len(),
        forall|i: int| 0 <= i < n.len() ==> !is_stop(#[trigger] upper_text(n)[i]),
{
    assert(lower_text(upper_text(n)) =~= n) by {
        assert forall|i: int| 0 <= i < n.len() implies lower_text(upper_text(n))[i] == n[i] by {
            let c = n[i];
            assert(is_key_char(c));
        }
    }
    assert forall|i: int| 0 <= i < n.len() implies !is_stop(#[trigger] upper_text(n)[i]) by {
        let c = n[i];
        assert(is_key_char(c));
    }
}

proof fn lemma_name_is_key(t: nat)
    requires
        t < MODELED_TAGS,
    ensures
        is_key(name_of(t)),
        tag_code(name_of(t)) == t,
{
    let n = name_of(t);
    assert forall|i: int| 0 <= i < n.len() implies is_key_char(#[trigger] n[i]) by {}
}

proof fn lemma_width(c: char)
    ensures
        1 <= char_width(c) <= 4,
        char_width(c) == encode_scalar(c as u32).len(),
{
    char_is_scalar(c);
    assert(seq![c].drop_first() =~= Seq::<char>::empty());
    assert(encode_utf8(seq![c]) == encode_scalar(c as u32) + encode_utf8(Seq::<char>::empty()));
    assert(encode_utf8(Seq::<char>::empty()) =~= Seq::<u8>::empty());
    assert(encode_utf8(seq![c]) =~= encode_scalar(c as u32));
}

proof fn lemma_byte_len_first(v: Seq<char>)
    requires
        v.len() > 0,
    ensures
        byte_len(v) == char_width(v[0]) + byte_len(v.drop_first()),
{
    lemma_width(v[0]);
}

proof fn lemma_byte_len_empty(v: Seq<char>)
    ensures
        (byte_len(v) == 0) == (v.len() == 0),
{
    if v.len() > 0 {
        lemma_byte_len_first(v);
        lemma_width(v[0]);
    }
}

proof fn lemma_name_end(s: Seq<char>, i: int, j: int)
    requires
        0 <= i <= j < s.len(),
        forall|k: int| i <= k < j ==> !is_stop(#[trigger] s[k]),
        is_stop(s[j]),
    ensures
        name_end(s, i) == j,
    decreases j - i,
{
    if i < j {
        lemma_name_end(s, i + 1, j);
    }
}

proof fn lemma_digits_end(s: Seq<char>, i: int, j: int)
    requires
        0 <= i <= j < s.len(),
        forall|k: int| i <= k < j ==> is_digit(#[trigger] s[k]),
        !is_digit(s[j]),
    ensures
        digits_end(s, i) == j,
    decreases j - i,
{
    if i < j {
        lemma_digits_end(s, i + 1, j);
    }
}

proof fn lemma_value_end(s: Seq<char>, i: int, v: Seq<char>)
    requires
        0 <= i,
        i + v.len() <= s.len(),
        s.subrange(i, i + v.len()) == v,
    ensures
        value_end(s, i, byte_len(v)) == i + v.len(),
    decreases v.len(),
{
    lemma_byte_len_empty(v);
    if v.len() > 0 {
        let r = v.drop_first();
        lemma_byte_len_first(v);
        lemma_byte_len_empty(r);
        lemma_width(v[0]);
        assert(s[i] == v[0]) by {
            assert(s.subrange(i, i + v.len())[0] == s[i]);
        }
        if r.len() > 0 {
            assert(s.subrange(i + 1, i + 1 + r.len()) =~= r) by {
                assert forall|k: int| 0 <= k < r.len() implies s.subrange(i + 1, i + 1 + r.len())[k]
                    == r[k] by {
                    assert(s.subrange(i, i + v.len())[k + 1] == v[k + 1]);
                }
            }
            lemma_value_end(s, i + 1, r);
        }
    }
}

/// A field written by `enc_field` reads back as that field.
proof fn lemma_token_field(s: Seq<char>, i: int, n: Seq<char>, v: Seq<char>)
    requires
        is_key(n),
        byte_len(v) < pow10(19),
        0 <= i,
        i + enc_field(n, v).len() <= s.len(),
        s.subrange(i, i + enc_field(n, v).len()) == enc_field(n, v),
    ensures
        token_at(s, i) == (Token::Field(n, v), i + enc_field(n, v).len()),
{
    let e = enc_field(n, v);
    let u = upper_text(n);
    let bl = byte_len(v);
    let d = dec(bl);
    lemma_upper_key(n);
    lemma_dec(bl);
    lemma_dec_len(bl, 19);
    let j = i + 1 + u.len();
    let k = j + 1 + d.len();
    assert(e =~= seq!['<'] + u + seq![':'] + d + seq!['>'] + v);
    assert forall|m: int| 0 <= m < e.len() implies s[i + m] == #[trigger] e[m] by {
        assert(s.subrange(i, i + e.len())[m] == s[i + m]);
    }
    assert(s[i] == '<') by {
        assert(e[0] == '<');
    }
    assert forall|m: int| i + 1 <= m < j implies !is_stop(#[trigger] s[m]) by {
        assert(e[m - i] == u[m - i - 1]);
        assert(s[i + (m - i)] == e[m - i]);
    }
    assert(s[j] == ':') by {
        assert(e[j - i] == ':');
    }
    lemma_name_end(s, i + 1, j);
    assert(s.subrange(i + 1, j) =~= u) by {
        assert forall|m: int| 0 <= m < u.len() implies s.subrange(i + 1, j)[m] == u[m] by {
            assert(e[m + 1] == u[m]);
            assert(s[i + (m + 1)] == e[m + 1]);
        }
    }
    assert forall|m: int| j + 1 <= m < k implies is_digit(#[trigger] s[m]) by {
        assert(e[m - i] == d[m - j - 1]);
        assert(s[i + (m - i)] == e[m - i]);
        assert(is_digit(d[m - j - 1]));
    }
    assert(s[k] == '>') by {
        assert(e[k - i] == '>');
    }
    lemma_digits_end(s, j + 1, k);
    assert(s.subrange(j + 1, k) =~= d) by {
        assert forall|m: int| 0 <= m < d.len() implies s.subrange(j + 1, k)[m] == d[m] by {
            assert(e[j + 1 - i + m] == d[m]);
            assert(s[i + (j + 1 - i + m)] == e[j + 1 - i + m]);
        }
    }
    assert(digits_value(d, 19) == Some(bl));
    assert(value_start(s, k) == k + 1);
    assert(s.subrange(k + 1, k + 1 + v.len()) =~= v) by {
        assert forall|m: int| 0 <= m < v.len() implies s.subrange(k + 1, k + 1 + v.len())[m]
            == v[m] by {
            assert(e[k + 1 - i + m] == v[m]);
            assert(s[i + (k + 1 - i + m)] == e[k + 1 - i + m]);
        }
    }
    lemma_value_end(s, k + 1, v);
    assert(k + 1 + v.len() == i + e.len());
}

/// Applying a list of fields, first to last.
pub open spec fn apply_all(p: Pending, l: Seq<(Seq<char>, Seq<char>)>) -> Pending
    decreases l.len(),
{
    if l.len() == 0 {
        p
    } else {
        apply_all(apply_field(p, l[0].0, l[0].1), l.drop_first())
    }
}

/// Every name is a tag name this library writes, and every value's length has at most
/// nineteen digits.
pub open spec fn fields_ok(l: Seq<(Seq<char>, Seq<char>)>) -> bool {
    forall|k: int| 0 <= k < l.len() ==> is_key(#[trigger] l[k].0) && byte_len(l[k].1) < pow10(19)
}

proof fn lemma_enc_field_len(n: Seq<char>, v: Seq<char>)
    ensures
        enc_field(n, v).len() >= 1,
        enc_field(n, v)[0] == '<',
{
    assert((seq!['<'] + upper_text(n) + seq![':'] + dec(byte_len(v)) + seq!['>'] + v)[0] == '<');
}

proof fn lemma_scan_fields(s: Seq<char>, i: int, st: ScanState, l: Seq<(Seq<char>, Seq<char>)>)
    requires
        fields_ok(l),
        0 <= i,
        i + enc_fields(l).len() <= s.len(),
        s.subrange(i, i + enc_fields(l).len()) == enc_fields(l),
    ensures
        scan(s, i, st) == scan(
            s,
            i + enc_fields(l).len(),
            ScanState { records: st.records, pending: apply_all(st.pending, l) },
        ),
    decreases l.len(),
{
    if l.len() == 0 {
        assert(enc_fields(l).len() == 0);
    } else {
        let n = l[0].0;
        let v = l[0].1;
        let e0 = enc_field(n, v);
        let rest = l.drop_first();
        let er = enc_fields(rest);
        assert(enc_fields(l) == e0 + er);
        lemma_enc_field_len(n, v);
        assert(fields_ok(rest)) by {
            assert forall|k: int| 0 <= k < rest.len() implies is_key(#[trigger] rest[k].0)
                && byte_len(rest[k].1) < pow10(19) by {
                assert(rest[k] == l[k + 1]);
            }
        }
        assert(is_key(l[0].0) && byte_len(l[0].1) < pow10(19));
        assert(s.subrange(i, i + e0.len()) =~= e0) by {
            assert forall|m: int| 0 <= m < e0.len() implies s.subrange(i, i + e0.len())[m]
                == e0[m] by {
                assert(s.subrange(i, i + enc_fields(l).len())[m] == (e0 + er)[m]);
            }
        }
        lemma_token_field(s, i, n, v);
        let j = i + e0.len();
        let st2 = ScanState { records: st.records, pending: apply_field(st.pending, n, v) };
        assert(step(st, Token::Field(n, v)) == st2);
        assert(scan(s, i, st) == scan(s, j, st2));
        assert(s.subrange(j, j + er.len()) =~= er) by {
            assert forall|m: int| 0 <= m < er.len() implies s.subrange(j, j + er.len())[m]
                == er[m] by {
                assert(s.subrange(i, i + enc_fields(l).len())[e0.len() + m] == (e0 + er)[e0.len()
                    + m]);
            }
        }
        lemma_scan_fields(s, j, st2, rest);
    }
}

proof fn lemma_scan_eor(s: Seq<char>, i: int, st: ScanState)
    requires
        0 <= i,
        i + 6 <= s.len(),
        s.subrange(i, i + 6) == eor_text(),
    ensures
        scan(s, i, st) == scan(s, i + 6, step(st, Token::Eor)),
{
    assert forall|m: int| 0 <= m < 6 implies s[i + m] == #[trigger] eor_text()[m] by {
        assert(s.subrange(i, i + 6)[m] == s[i + m]);
    }
    assert(s[i] == '<' && s[i + 1] == 'E' && s[i + 2] == 'O' && s[i + 3] == 'R' && s[i + 4]
        == '>' && s[i + 5] == '\n') by {
        assert(s[i + 0] == eor_text()[0]);
        assert(s[i + 1] == eor_text()[1]);
        assert(s[i + 2] == eor_text()[2]);
        assert(s[i + 3] == eor_text()[3]);
        assert(s[i + 4] == eor_text()[4]);
        assert(s[i + 5] == eor_text()[5]);
    }
    lemma_name_end(s, i + 1, i + 4);
    assert(lower_text(s.subrange(i + 1, i + 4)) =~= seq!['e', 'o', 'r']);
    assert(token_at(s, i) == (Token::Eor, i + 5));
    assert(token_at(s, i + 5) == (Token::Skip, i + 6));
    let st2 = step(st, Token::Eor);
    assert(scan(s, i, st) == scan(s, i + 5, st2));
    assert(step(st2, Token::Skip) == st2);
    assert(scan(s, i + 5, st2) == scan(s, i + 6, st2));
}

proof fn lemma_apply_all_concat(p: Pending, a: Seq<(Seq<char>, Seq<char>)>, b: Seq<(Seq<char>, Seq<char>)>)
    ensures
        apply_all(p, a + b) == apply_all(apply_all(p, a), b),
    decreases a.len(),
{
    if a.len() == 0 {
        assert(a + b =~= b);
    } else {
        assert((a + b).drop_first() =~= a.drop_first() + b);
        assert((a + b)[0] == a[0]);
        lemma_apply_all_concat(apply_field(p, a[0].0, a[0].1), a.drop_first(), b);
    }
}

proof fn lemma_apply_all_one(p: Pending, n: Seq<char>, v: Seq<char>)
    ensures
        apply_all(p, seq![(n, v)]) == apply_field(p, n, v),
{
    let l = seq![(n, v)];
    assert(l.drop_first() =~= Seq::<(Seq<char>, Seq<char>)>::empty());
    assert(l[0] == (n, v));
    let q = apply_field(p, n, v);
    assert(apply_all(q, l.drop_first()) == q);
    assert(apply_all(p, l) == apply_all(apply_field(p, l[0].0, l[0].1), l.drop_first()));
}

/// Sets slot `t` when `o` holds a value.
pub open spec fn set_slot(p: Pending, t: nat, o: Option<Seq<char>>) -> Pending {
    match o {
        Some(v) => Pending { fields: p.fields.update(t as int, Some(v)), custom: p.custom },
        None => p,
    }
}

proof fn lemma_apply_opt(p: Pending, t: nat, o: Option<Seq<char>>)
    requires
        t < MODELED_TAGS,
    ensures
        apply_all(p, opt_field(t, o)) == set_slot(p, t, o),
{
    lemma_name_is_key(t);
    match o {
        Some(v) => lemma_apply_all_one(p, name_of(t), v),
        None => {},
    }
}

proof fn lemma_apply_custom(p: Pending, c: Seq<(Seq<char>, Seq<char>)>)
    requires
        forall|k: int| 0 <= k < c.len() ==> tag_code(#[trigger] c[k].0) == OTHER_TAG,
        keys_unique(p.custom + c),
    ensures
        apply_all(p, c) == (Pending { fields: p.fields, custom: p.custom + c }),
    decreases c.len(),
{
    if c.len() == 0 {
        assert(p.custom + c =~= p.custom);
    } else {
        let (k, v) = c[0];
        let a = p.custom;
        assert(tag_code(c[0].0) == OTHER_TAG);
        assert(!has_key(a, k)) by {
            if has_key(a, k) {
                let x = choose|x: int| 0 <= x < a.len() && a[x].0 == k;
                assert((a + c)[x].0 == (a + c)[a.len() as int].0);
            }
        }
        let p2 = Pending { fields: p.fields, custom: a.push((k, v)) };
        assert(apply_field(p, k, v) == p2);
        assert(a.push((k, v)) + c.drop_first() =~= a + c);
        assert forall|m: int| 0 <= m < c.drop_first().len() implies tag_code(
            #[trigger] c.drop_first()[m].0,
        ) == OTHER_TAG by {
            assert(c.drop_first()[m] == c[m + 1]);
        }
        lemma_apply_custom(p2, c.drop_first());
    }
}

/// The slots a written record fills, by tag code.
pub open spec fn written_slots(e: EntryView) -> Seq<Option<Seq<char>>> {
    seq![
        Some(e.id),
        Some(e.callsign),
        Some(date_text(e.timestamp)),
        Some(time_text(e.timestamp)),
        Some(fixed_text(e.frequency as nat, 6)),
        Some(e.mode),
        e.rst_sent,
        e.rst_received,
        e.notes,
        e.name,
        e.qth,
        e.state,
        e.country,
        dxcc_text(e.dxcc),
        e.band,
        e.operator,
        e.grid,
        power_text(e.power),
    ]
}

proof fn lemma_apply_required(e: EntryView)
    ensures
        apply_all(empty_pending(), required_fields(e)) == (Pending {
            fields: empty_pending().fields.update(0, Some(e.id)).update(1, Some(e.callsign)).update(
                2,
                Some(date_text(e.timestamp)),
            ).update(3, Some(time_text(e.timestamp))).update(
                4,
                Some(fixed_text(e.frequency as nat, 6)),
            ).update(5, Some(e.mode)),
            custom: Seq::empty(),
        }),
{
    let l = required_fields(e);
    let p0 = empty_pending();
    lemma_name_is_key(0);
    lemma_name_is_key(1);
    lemma_name_is_key(2);
    lemma_name_is_key(3);
    lemma_name_is_key(4);
    lemma_name_is_key(5);
    let a = seq![l[0]];
    let b = seq![l[1]];
    let c = seq![l[2]];
    let d = seq![l[3]];
    let f = seq![l[4]];
    let g = seq![l[5]];
    assert(l =~= a + b + c + d + f + g);
    lemma_apply_all_concat(p0, a + b + c + d + f, g);
    lemma_apply_all_concat(p0, a + b + c + d, f);
    lemma_apply_all_concat(p0, a + b + c, d);
    lemma_apply_all_concat(p0, a + b, c);
    lemma_apply_all_concat(p0, a, b);
    lemma_apply_all_one(p0, l[0].0, l[0].1);
    let p1 = apply_all(p0, a);
    lemma_apply_all_one(p1, l[1].0, l[1].1);
    let p2 = apply_all(p1, b);
    lemma_apply_all_one(p2, l[2].0, l[2].1);
    let p3 = apply_all(p2, c);
    lemma_apply_all_one(p3, l[3].0, l[3].1);
    let p4 = apply_all(p3, d);
    lemma_apply_all_one(p4, l[4].0, l[4].1);
    let p5 = apply_all(p4, f);
    lemma_apply_all_one(p5, l[5].0, l[5].1);
}

/// A record this library can write and read back unchanged: a valid instant,
/// frequency and power below `10^19` units, texts whose byte length has at most
/// nineteen digits, and custom fields under distinct lower-case names that are not
/// modeled tags.
pub open spec fn encodable(e: EntryView) -> bool {
    &&& e.timestamp.valid()
    &&& e.frequency < pow10(19)
    &&& (e.power matches Some(w) ==> w < pow10(19))
    &&& byte_len(e.id) < pow10(19)
    &&& byte_len(e.callsign) < pow10(19)
    &&& byte_len(e.mode) < pow10(19)
    &&& opt_fits(e.rst_sent)
    &&& opt_fits(e.rst_received)
    &&& opt_fits(e.notes)
    &&& opt_fits(e.name)
    &&& opt_fits(e.qth)
    &&& opt_fits(e.state)
    &&& opt_fits(e.country)
    &&& opt_fits(e.band)
    &&& opt_fits(e.operator)
    &&& opt_fits(e.grid)
    &&& keys_unique(e.custom_fields)
    &&& forall|k: int|
        0 <= k < e.custom_fields.len() ==> is_key(#[trigger] e.custom_fields[k].0) && tag_code(
            e.custom_fields[k].0,
        ) == OTHER_TAG && byte_len(e.custom_fields[k].1) < pow10(19)
}

pub open spec fn opt_fits(o: Option<Seq<char>>) -> bool {
    o matches Some(v) ==> byte_len(v) < pow10(19)
}

proof fn lemma_apply_step(
    p: Pending,
    q: Seq<(Seq<char>, Seq<char>)>,
    t: nat,
    o: Option<Seq<char>>,
    a: Pending,
)
    requires
        t < MODELED_TAGS,
        apply_all(p, q) == a,
    ensures
        apply_all(p, q + opt_field(t, o)) == set_slot(a, t, o),
{
    lemma_apply_all_concat(p, q, opt_field(t, o));
    lemma_apply_opt(a, t, o);
}

proof fn lemma_apply_optional(e: EntryView, p: Pending)
    ensures
        apply_all(p, optional_fields(e)) == set_slot(
            set_slot(
                set_slot(
                    set_slot(
                        set_slot(
                            set_slot(
                                set_slot(
                                    set_slot(
                                        set_slot(
                                            set_slot(
                                                set_slot(
                                                    set_slot(p, 6, e.rst_sent),
                                                    7,
                                                    e.rst_received,
                                                ),
                                                8,
                                                e.notes,
                                            ),
                                            9,
                                            e.name,
                                        ),
                                        10,
                                        e.qth,
                                    ),
                                    11,
                                    e.state,
                                ),
                                12,
                                e.country,
                            ),
                            13,
                            dxcc_text(e.dxcc),
                        ),
                        14,
                        e.band,
                    ),
                    15,
                    e.operator,
                ),
                16,
                e.grid,
            ),
            17,
            power_text(e.power),
        ),
{
    let o6 = opt_field(6, e.rst_sent);
    let q7 = o6 + opt_field(7, e.rst_received);
    let q8 = q7 + opt_field(8, e.notes);
    let q9 = q8 + opt_field(9, e.name);
    let q10 = q9 + opt_field(10, e.qth);
    let q11 = q10 + opt_field(11, e.state);
    let q12 = q11 + opt_field(12, e.country);
    let q13 = q12 + opt_field(13, dxcc_text(e.dxcc));
    let q14 = q13 + opt_field(14, e.band);
    let q15 = q14 + opt_field(15, e.operator);
    let q16 = q15 + opt_field(16, e.grid);
    let a6 = set_slot(p, 6, e.rst_sent);
    lemma_apply_opt(p, 6, e.rst_sent);
    let a7 = set_slot(a6, 7, e.rst_received);
    lemma_apply_step(p, o6, 7, e.rst_received, a6);
    let a8 = set_slot(a7, 8, e.notes);
    lemma_apply_step(p, q7, 8, e.notes, a7);
    let a9 = set_slot(a8, 9, e.name);
    lemma_apply_step(p, q8, 9, e.name, a8);
    let a10 = set_slot(a9, 10, e.qth);
    lemma_apply_step(p, q9, 10, e.qth, a9);
    let a11 = set_slot(a10, 11, e.state);
    lemma_apply_step(p, q10, 11, e.state, a10);
    let a12 = set_slot(a11, 12, e.country);
    lemma_apply_step(p, q11, 12, e.country, a11);
    let a13 = set_slot(a12, 13, dxcc_text(e.dxcc));
    lemma_apply_step(p, q12, 13, dxcc_text(e.dxcc), a12);
    let a14 = set_slot(a13, 14, e.band);
    lemma_apply_step(p, q13, 14, e.band, a13);
    let a15 = set_slot(a14, 15, e.operator);
    lemma_apply_step(p, q14, 15, e.operator, a14);
    let a16 = set_slot(a15, 16, e.grid);
    lemma_apply_step(p, q15, 16, e.grid, a15);
    lemma_apply_step(p, q16, 17, power_text(e.power), a16);
}

#[verifier::rlimit(50)]
proof fn lemma_slots(e: EntryView, p: Pending)
    requires
        p.fields == empty_pending().fields.update(0, Some(e.id)).update(1, Some(e.callsign)).update(
            2,
            Some(date_text(e.timestamp)),
        ).update(3, Some(time_text(e.timestamp))).update(
            4,
            Some(fixed_text(e.frequency as nat, 6)),
        ).update(5, Some(e.mode)),
    ensures
        set_slot(
            set_slot(
                set_slot(
                    set_slot(
                        set_slot(
                            set_slot(
                                set_slot(
                                    set_slot(
                                        set_slot(
                                            set_slot(
                                                set_slot(
                                                    set_slot(p, 6, e.rst_sent),
                                                    7,
                                                    e.rst_received,
                                                ),
                                                8,
                                                e.notes,
                                            ),
                                            9,
                                            e.name,
                                        ),
                                        10,
                                        e.qth,
                                    ),
                                    11,
                                    e.state,
                                ),
                                12,
                                e.country,
                            ),
                            13,
                            dxcc_text(e.dxcc),
                        ),
                        14,
                        e.band,
                    ),
                    15,
                    e.operator,
                ),
                16,
                e.grid,
            ),
            17,
            power_text(e.power),
        ).fields == written_slots(e),
{
    let g0 = p.fields;
    let a6 = set_slot(p, 6, e.rst_sent);
    lemma_set_empty_slot(p, 6, e.rst_sent);
    let g6 = g0.update(6, e.rst_sent);
    let a7 = set_slot(a6, 7, e.rst_received);
    lemma_set_empty_slot(a6, 7, e.rst_received);
    let g7 = g6.update(7, e.rst_received);
    let a8 = set_slot(a7, 8, e.notes);
    lemma_set_empty_slot(a7, 8, e.notes);
    let g8 = g7.update(8, e.notes);
    let a9 = set_slot(a8, 9, e.name);
    lemma_set_empty_slot(a8, 9, e.name);
    let g9 = g8.update(9, e.name);
    let a10 = set_slot(a9, 10, e.qth);
    lemma_set_empty_slot(a9, 10, e.qth);
    let g10 = g9.update(10, e.qth);
    let a11 = set_slot(a10, 11, e.state);
    lemma_set_empty_slot(a10, 11, e.state);
    let g11 = g10.update(11, e.state);
    let a12 = set_slot(a11, 12, e.country);
    lemma_set_empty_slot(a11, 12, e.country);
    let g12 = g11.update(12, e.country);
    let a13 = set_slot(a12, 13, dxcc_text(e.dxcc));
    lemma_set_empty_slot(a12, 13, dxcc_text(e.dxcc));
    let g13 = g12.update(13, dxcc_text(e.dxcc));
    let a14 = set_slot(a13, 14, e.band);
    lemma_set_empty_slot(a13, 14, e.band);
    let g14 = g13.update(14, e.band);
    let a15 = set_slot(a14, 15, e.operator);
    lemma_set_empty_slot(a14, 15, e.operator);
    let g15 = g14.update(15, e.operator);
    let a16 = set_slot(a15, 16, e.grid);
    lemma_set_empty_slot(a15, 16, e.grid);
    let g16 = g15.update(16, e.grid);
    let a17 = set_slot(a16, 17, power_text(e.power));
    lemma_set_empty_slot(a16, 17, power_text(e.power));
    let g17 = g16.update(17, power_text(e.power));
    assert(a17.fields == g17);
    assert(g17 =~= written_slots(e));
}

proof fn lemma_set_empty_slot(a: Pending, t: nat, o: Option<Seq<char>>)
    requires
        t < a.fields.len(),
        a.fields[t as int] is None,
    ensures
        set_slot(a, t, o).fields == a.fields.update(t as int, o),
{
    match o {
        Some(v) => {},
        None => {
            assert(a.fields.update(t as int, o) =~= a.fields);
        },
    }
}

proof fn lemma_apply_entry(e: EntryView)
    requires
        keys_unique(e.custom_fields),
        forall|k: int|
            0 <= k < e.custom_fields.len() ==> tag_code(#[trigger] e.custom_fields[k].0)
                == OTHER_TAG,
    ensures
        apply_all(empty_pending(), entry_fields(e)) == (Pending {
            fields: written_slots(e),
            custom: e.custom_fields,
        }),
{
    let p0 = empty_pending();
    lemma_apply_required(e);
    let pr = apply_all(p0, required_fields(e));
    lemma_apply_optional(e, pr);
    lemma_slots(e, pr);
    let po = apply_all(pr, optional_fields(e));
    assert(po.custom == Seq::<(Seq<char>, Seq<char>)>::empty());
    lemma_apply_all_concat(p0, required_fields(e), optional_fields(e));
    lemma_apply_all_concat(p0, required_fields(e) + optional_fields(e), e.custom_fields);
    assert(po.custom + e.custom_fields =~= e.custom_fields);
    lemma_apply_custom(po, e.custom_fields);
}

proof fn lemma_stamp(ts: Timestamp)
    requires
        ts.valid(),
    ensures
        parse_stamp(date_text(ts), time_text(ts)) == Some(ts),
{
    reveal_with_fuel(pow10, 5);
    lemma_padded(ts.year as nat, 4);
    lemma_padded(ts.month as nat, 2);
    lemma_padded(ts.day as nat, 2);
    lemma_padded(ts.hour as nat, 2);
    lemma_padded(ts.minute as nat, 2);
    lemma_padded(ts.second as nat, 2);
    let d = date_text(ts);
    let t = time_text(ts);
    assert(d.subrange(0, 4) =~= padded(ts.year as nat, 4));
    assert(d.subrange(4, 6) =~= padded(ts.month as nat, 2));
    assert(d.subrange(6, 8) =~= padded(ts.day as nat, 2));
    assert(t.subrange(0, 2) =~= padded(ts.hour as nat, 2));
    assert(t.subrange(2, 4) =~= padded(ts.minute as nat, 2));
    assert(t.subrange(4, 6) =~= padded(ts.second as nat, 2));
}

proof fn lemma_finish(e: EntryView)
    requires
        encodable(e),
    ensures
        finish(Pending { fields: written_slots(e), custom: e.custom_fields }) == Some(e),
{
    let p = Pending { fields: written_slots(e), custom: e.custom_fields };
    lemma_fixed_round_trip(e.frequency as nat, 6);
    lemma_stamp(e.timestamp);
    match e.dxcc {
        Some(x) => {
            reveal_with_fuel(pow10, 11);
            lemma_dec_shape(x as nat, 10);
        },
        None => {},
    }
    match e.power {
        Some(w) => {
            lemma_fixed_round_trip(w as nat, 3);
        },
        None => {},
    }
    let r = finish(p);
    assert(r is Some);
    assert(r->0 == e);
}

proof fn lemma_numeric_byte_len(v: Seq<char>)
    requires
        numeric_chars(v),
    ensures
        byte_len(v) == v.len(),
    decreases v.len(),
{
    if v.len() == 0 {
        assert(encode_utf8(v) =~= Seq::<u8>::empty());
    } else {
        let c = v[0];
        assert(is_digit(c) || c == '.');
        lemma_byte_len_first(v);
        lemma_width(c);
        assert((c as u32) <= 0x7F);
        let r = v.drop_first();
        assert(numeric_chars(r)) by {
            assert forall|i: int| 0 <= i < r.len() implies (is_digit(#[trigger] r[i]) || r[i]
                == '.') by {
                assert(r[i] == v[i + 1]);
            }
        }
        lemma_numeric_byte_len(r);
    }
}

proof fn lemma_short_fits(v: Seq<char>)
    requires
        numeric_chars(v),
        v.len() <= 26,
    ensures
        byte_len(v) < pow10(19),
{
    lemma_numeric_byte_len(v);
    reveal_with_fuel(pow10, 3);
    lemma_pow10_mono(2, 19);
}

proof fn lemma_fields_ok_concat(a: Seq<(Seq<char>, Seq<char>)>, b: Seq<(Seq<char>, Seq<char>)>)
    requires
        fields_ok(a),
        fields_ok(b),
    ensures
        fields_ok(a + b),
{
    assert forall|k: int| 0 <= k < (a + b).len() implies is_key(#[trigger] (a + b)[k].0) && byte_len(
        (a + b)[k].1,
    ) < pow10(19) by {
        if k < a.len() {
            assert((a + b)[k] == a[k]);
            assert(is_key(a[k].0) && byte_len(a[k].1) < pow10(19));
        } else {
            assert((a + b)[k] == b[k - a.len()]);
            assert(is_key(b[k - a.len()].0) && byte_len(b[k - a.len()].1) < pow10(19));
        }
    }
}

proof fn lemma_opt_ok(t: nat, o: Option<Seq<char>>)
    requires
        t < MODELED_TAGS,
        opt_fits(o),
    ensures
        fields_ok(opt_field(t, o)),
{
    lemma_name_is_key(t);
}

proof fn lemma_padded_numeric(n: nat, w: nat)
    requires
        n < pow10(w),
        w >= 1,
    ensures
        numeric_chars(padded(n, w)),
        padded(n, w).len() == w,
{
    lemma_padded(n, w);
}

proof fn lemma_entry_fields_ok(e: EntryView)
    requires
        encodable(e),
    ensures
        fields_ok(entry_fields(e)),
{
    let ts = e.timestamp;
    reveal_with_fuel(pow10, 5);
    lemma_padded_numeric(ts.year as nat, 4);
    lemma_padded_numeric(ts.month as nat, 2);
    lemma_padded_numeric(ts.day as nat, 2);
    lemma_padded_numeric(ts.hour as nat, 2);
    lemma_padded_numeric(ts.minute as nat, 2);
    lemma_padded_numeric(ts.second as nat, 2);
    let d = date_text(ts);
    let t = time_text(ts);
    assert(numeric_chars(d)) by {
        let a = padded(ts.year as nat, 4);
        let b = padded(ts.month as nat, 2);
        let c = padded(ts.day as nat, 2);
        assert forall|i: int| 0 <= i < d.len() implies (is_digit(#[trigger] d[i]) || d[i] == '.') by {
            if i < 4 {
                assert(d[i] == a[i]);
            } else if i < 6 {
                assert(d[i] == b[i - 4]);
            } else {
                assert(d[i] == c[i - 6]);
            }
        }
    }
    assert(numeric_chars(t)) by {
        let a = padded(ts.hour as nat, 2);
        let b = padded(ts.minute as nat, 2);
        let c = padded(ts.second as nat, 2);
        assert forall|i: int| 0 <= i < t.len() implies (is_digit(#[trigger] t[i]) || t[i] == '.') by {
            if i < 2 {
                assert(t[i] == a[i]);
            } else if i < 4 {
                assert(t[i] == b[i - 2]);
            } else {
                assert(t[i] == c[i - 4]);
            }
        }
    }
    lemma_short_fits(d);
    lemma_short_fits(t);
    lemma_fixed_text_shape(e.frequency as nat, 6);
    lemma_short_fits(fixed_text(e.frequency as nat, 6));
    let r = required_fields(e);
    lemma_name_is_key(0);
    lemma_name_is_key(1);
    lemma_name_is_key(2);
    lemma_name_is_key(3);
    lemma_name_is_key(4);
    lemma_name_is_key(5);
    assert(fields_ok(r)) by {
        assert forall|k: int| 0 <= k < r.len() implies is_key(#[trigger] r[k].0) && byte_len(r[k].1)
            < pow10(19) by {
            assert(k == 0 || k == 1 || k == 2 || k == 3 || k == 4 || k == 5);
        }
    }
    match e.dxcc {
        Some(x) => {
            reveal_with_fuel(pow10, 11);
            lemma_dec_shape(x as nat, 10);
            lemma_short_fits(dec(x as nat));
        },
        None => {},
    }
    match e.power {
        Some(w) => {
            lemma_fixed_text_shape(w as nat, 3);
            lemma_short_fits(fixed_text(w as nat, 3));
        },
        None => {},
    }
    lemma_opt_ok(6, e.rst_sent);
    lemma_opt_ok(7, e.rst_received);
    lemma_opt_ok(8, e.notes);
    lemma_opt_ok(9, e.name);
    lemma_opt_ok(10, e.qth);
    lemma_opt_ok(11, e.state);
    lemma_opt_ok(12, e.country);
    lemma_opt_ok(13, dxcc_text(e.dxcc));
    lemma_opt_ok(14, e.band);
    lemma_opt_ok(15, e.operator);
    lemma_opt_ok(16, e.grid);
    lemma_opt_ok(17, power_text(e.power));
    let o6 = opt_field(6, e.rst_sent);
    let q7 = o6 + opt_field(7, e.rst_received);
    lemma_fields_ok_concat(o6, opt_field(7, e.rst_received));
    let q8 = q7 + opt_field(8, e.notes);
    lemma_fields_ok_concat(q7, opt_field(8, e.notes));
    let q9 = q8 + opt_field(9, e.name);
    lemma_fields_ok_concat(q8, opt_field(9, e.name));
    let q10 = q9 + opt_field(10, e.qth);
    lemma_fields_ok_concat(q9, opt_field(10, e.qth));
    let q11 = q10 + opt_field(11, e.state);
    lemma_fields_ok_concat(q10, opt_field(11, e.state));
    let q12 = q11 + opt_field(12, e.country);
    lemma_fields_ok_concat(q11, opt_field(12, e.country));
    let q13 = q12 + opt_field(13, dxcc_text(e.dxcc));
    lemma_fields_ok_concat(q12, opt_field(13, dxcc_text(e.dxcc)));
    let q14 = q13 + opt_field(14, e.band);
    lemma_fields_ok_concat(q13, opt_field(14, e.band));
    let q15 = q14 + opt_field(15, e.operator);
    lemma_fields_ok_concat(q14, opt_field(15, e.operator));
    let q16 = q15 + opt_field(16, e.grid);
    lemma_fields_ok_concat(q15, opt_field(16, e.grid));
    lemma_fields_ok_concat(q16, opt_field(17, power_text(e.power)));
    assert(fields_ok(optional_fields(e)));
    lemma_fields_ok_concat(r, optional_fields(e));
    assert(fields_ok(e.custom_fields));
    lemma_fields_ok_concat(r + optional_fields(e), e.custom_fields);
}

proof fn lemma_eor_step(recs: Seq<EntryView>, e: EntryView)
    requires
        encodable(e),
    ensures
        step(
            ScanState {
                records: recs,
                pending: Pending { fields: written_slots(e), custom: e.custom_fields },
            },
            Token::Eor,
        ) == (ScanState { records: recs.push(e), pending: empty_pending() }),
{
    lemma_finish(e);
}

proof fn lemma_scan_entry(s: Seq<char>, i: int, recs: Seq<EntryView>, e: EntryView)
    requires
        encodable(e),
        0 <= i,
        i + enc_entry(e).len() <= s.len(),
        s.subrange(i, i + enc_entry(e).len()) == enc_entry(e),
    ensures
        scan(s, i, ScanState { records: recs, pending: empty_pending() }) == scan(
            s,
            i + enc_entry(e).len(),
            ScanState { records: recs.push(e), pending: empty_pending() },
        ),
{
    let st = ScanState { records: recs, pending: empty_pending() };
    let f = entry_fields(e);
    let ef = enc_fields(f);
    let whole = enc_entry(e);
    assert(whole == ef + eor_text());
    lemma_entry_fields_ok(e);
    let i1 = i + ef.len();
    assert(s.subrange(i, i1) =~= ef) by {
        assert forall|m: int| 0 <= m < ef.len() implies s.subrange(i, i1)[m] == ef[m] by {
            assert(s.subrange(i, i + whole.len())[m] == whole[m]);
        }
    }
    lemma_scan_fields(s, i, st, f);
    lemma_apply_entry(e);
    let st1 = ScanState {
        records: recs,
        pending: Pending { fields: written_slots(e), custom: e.custom_fields },
    };
    assert(s.subrange(i1, i1 + 6) =~= eor_text()) by {
        assert forall|m: int| 0 <= m < 6 implies s.subrange(i1, i1 + 6)[m] == eor_text()[m] by {
            assert(s.subrange(i, i + whole.len())[ef.len() + m] == whole[ef.len() + m]);
        }
    }
    lemma_scan_eor(s, i1, st1);
    lemma_eor_step(recs, e);
}

proof fn lemma_scan_records(s: Seq<char>, i: int, recs: Seq<EntryView>, r: Seq<EntryView>)
    requires
        forall|k: int| 0 <= k < r.len() ==> encodable(#[trigger] r[k]),
        0 <= i,
        i + encode(r).len() == s.len(),
        s.subrange(i, s.len() as int) == encode(r),
    ensures
        scan(s, i, ScanState { records: recs, pending: empty_pending() }) == Some(recs + r),
    decreases r.len(),
{
    if r.len() == 0 {
        assert(recs + r =~= recs);
    } else {
        let e = r[0];
        let rest = r.drop_first();
        let ee = enc_entry(e);
        let whole = encode(r);
        assert(whole == ee + encode(rest));
        assert(encodable(e));
        assert(s.subrange(i, i + ee.len()) =~= ee) by {
            assert forall|m: int| 0 <= m < ee.len() implies s.subrange(i, i + ee.len())[m]
                == ee[m] by {
                assert(s.subrange(i, s.len() as int)[m] == whole[m]);
            }
        }
        lemma_scan_entry(s, i, recs, e);
        let i2 = i + ee.len();
        assert(s.subrange(i2, s.len() as int) =~= encode(rest)) by {
            assert forall|m: int| 0 <= m < encode(rest).len() implies s.subrange(
                i2,
                s.len() as int,
            )[m] == encode(rest)[m] by {
                assert(s.subrange(i, s.len() as int)[ee.len() + m] == whole[ee.len() + m]);
            }
        }
        assert forall|k: int| 0 <= k < rest.len() implies encodable(#[trigger] rest[k]) by {
            assert(rest[k] == r[k + 1]);
        }
        lemma_scan_records(s, i2, recs.push(e), rest);
        assert(recs.push(e) + rest =~= recs + r);
    }
}

/// Reading back the ADIF text of records gives the same records, in the same order,
/// custom fields included, for every record this library can write unchanged.
pub proof fn lemma_round_trip(r: Seq<EntryView>)
    requires
        forall|k: int| 0 <= k < r.len() ==> encodable(#[trigger] r[k]),
    ensures
        decode(encode(r)) == Some(r),
{
    let s = encode(r);
    assert(s.subrange(0, s.len() as int) =~= s);
    lemma_scan_records(s, 0, Seq::empty(), r);
    assert(Seq::<EntryView>::empty() + r =~= r);
}

} // verus!
