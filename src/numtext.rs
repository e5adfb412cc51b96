//! Decimal text of numbers: plain, zero-padded and fixed-point, both ways.
use vstd::prelude::*;
use vstd::arithmetic::div_mod::lemma_fundamental_div_mod;

verus! {

pub open spec fn is_digit(c: char) -> bool {
    '0' <= c && c <= '9'
}

pub open spec fn all_digits(s: Seq<char>) -> bool {
    forall|i: int| 0 <= i < s.len() ==> is_digit(#[trigger] s[i])
}

pub open spec fn digit_char(d: nat) -> char {
    if d == 0 {
        '0'
    } else if d == 1 {
        '1'
    } else if d == 2 {
        '2'
    } else if d == 3 {
        '3'
    } else if d == 4 {
        '4'
    } else if d == 5 {
        '5'
    } else if d == 6 {
        '6'
    } else if d == 7 {
        '7'
    } else if d == 8 {
        '8'
    } else {
        '9'
    }
}

pub open spec fn digit_val(c: char) -> nat {
    if c == '1' {
        1
    } else if c == '2' {
        2
    } else if c == '3' {
        3
    } else if c == '4' {
        4
    } else if c == '5' {
        5
    } else if c == '6' {
        6
    } else if c == '7' {
        7
    } else if c == '8' {
        8
    } else if c == '9' {
        9
    } else {
        0
    }
}

pub open spec fn pow10(k: nat) -> nat
    decreases k,
{
    if k == 0 {
        1
    } else {
        10 * pow10((k - 1) as nat)
    }
}

/// Decimal text of `n`, without leading zeros.
pub open spec fn dec(n: nat) -> Seq<char>
    decreases n,
{
    if n < 10 {
        seq![digit_char(n)]
    } else {
        dec(n / 10).push(digit_char(n % 10))
    }
}

/// The number that a string of digits denotes.
pub open spec fn parse_dec(s: Seq<char>) -> nat
    decreases s.len(),
{
    if s.len() == 0 {
        0
    } else {
        parse_dec(s.drop_last()) * 10 + digit_val(s.last())
    }
}

pub open spec fn zeros(j: nat) -> Seq<char> {
    Seq::new(j, |i: int| '0')
}

/// `x` with zeros in front up to width `w`.
pub open spec fn pad_left(x: Seq<char>, w: nat) -> Seq<char> {
    if x.len() < w {
        zeros((w - x.len()) as nat) + x
    } else {
        x
    }
}

/// Digits of `n`, zero-padded to width `w`.
pub open spec fn padded(n: nat, w: nat) -> Seq<char> {
    pad_left(dec(n), w)
}

/// A string of 1 to `max` digits, and its value.
pub open spec fn digits_value(s: Seq<char>, max: nat) -> Option<nat> {
    if 1 <= s.len() <= max && all_digits(s) {
        Some(parse_dec(s))
    } else {
        None
    }
}

/// Removes trailing decimal zeros of a fraction `r` of `m` places: `(r', m')` with
/// `r == r' * 10^(m - m')`.
pub open spec fn strip_zeros(r: nat, m: nat) -> (nat, nat)
    decreases m,
{
    if m > 0 && r > 0 && r % 10 == 0 {
        strip_zeros(r / 10, (m - 1) as nat)
    } else {
        (r, m)
    }
}

/// Fractional part of `k` places as text: empty for zero, else a dot and the digits
/// without trailing zeros.
pub open spec fn frac_text(r: nat, k: nat) -> Seq<char> {
    if r == 0 {
        Seq::empty()
    } else {
        seq!['.'] + padded(strip_zeros(r, k).0, strip_zeros(r, k).1)
    }
}

/// `n` units of `10^-k` as a decimal number: `14074000` with `k == 6` is `14.074`.
pub open spec fn fixed_text(n: nat, k: nat) -> Seq<char> {
    dec(n / pow10(k)) + frac_text(n % pow10(k), k)
}

/// The first dot of `s` is at `i`.
pub open spec fn first_dot_at(s: Seq<char>, i: int) -> bool {
    0 <= i < s.len() && s[i] == '.' && forall|j: int| 0 <= j < i ==> s[j] != '.'
}

/// Reads a decimal number with at most `k` places as units of `10^-k`; the whole part
/// has 1 to `19 - k` digits and the fraction, if a dot is there, 1 to `k`.
pub open spec fn parse_fixed(s: Seq<char>, k: nat) -> Option<nat> {
    if exists|i: int| first_dot_at(s, i) {
        let d = choose|i: int| first_dot_at(s, i);
        let w = s.subrange(0, d);
        let f = s.subrange(d + 1, s.len() as int);
        if 1 <= w.len() <= 19 - k && all_digits(w) && 1 <= f.len() <= k && all_digits(f) {
            Some(parse_dec(w) * pow10(k) + parse_dec(f) * pow10((k - f.len()) as nat))
        } else {
            None
        }
    } else {
        match digits_value(s, (19 - k) as nat) {
            Some(v) => Some(v * pow10(k)),
            None => None,
        }
    }
}

pub proof fn lemma_pow10_pos(k: nat)
    ensures
        pow10(k) >= 1,
    decreases k,
{
    if k > 0 {
        lemma_pow10_pos((k - 1) as nat);
    }
}

pub proof fn lemma_pow10_add(a: nat, b: nat)
    ensures
        pow10(a + b) == pow10(a) * pow10(b),
    decreases b,
{
    if b == 0 {
        assert(pow10(0) == 1);
        assert(a + b == a);
    } else {
        lemma_pow10_add(a, (b - 1) as nat);
        assert((a + b - 1) as nat == a + ((b - 1) as nat));
        assert(pow10(a + b) == 10 * pow10((a + b - 1) as nat));
        assert(pow10(a) * pow10(b) == pow10(a) * (10 * pow10((b - 1) as nat)));
        assert(pow10(a) * (10 * pow10((b - 1) as nat)) == 10 * (pow10(a) * pow10(
            (b - 1) as nat,
        ))) by (nonlinear_arith);
    }
}

pub proof fn lemma_pow10_mono(a: nat, b: nat)
    requires
        a <= b,
    ensures
        pow10(a) <= pow10(b),
    decreases b,
{
    if a < b {
        lemma_pow10_mono(a, (b - 1) as nat);
        lemma_pow10_pos((b - 1) as nat);
    }
}

pub proof fn lemma_dec(n: nat)
    ensures
        all_digits(dec(n)),
        1 <= dec(n).len(),
        parse_dec(dec(n)) == n,
    decreases n,
{
    assert(parse_dec(Seq::<char>::empty()) == 0);
    if n < 10 {
        assert(dec(n).drop_last() =~= Seq::<char>::empty());
        assert(digit_val(digit_char(n)) == n);
        assert(parse_dec(dec(n)) == parse_dec(dec(n).drop_last()) * 10 + digit_val(dec(n).last()));
    } else {
        lemma_dec(n / 10);
        assert(dec(n).drop_last() =~= dec(n / 10));
        assert(n == (n / 10) * 10 + n % 10);
        assert(digit_val(digit_char(n % 10)) == n % 10);
        assert(parse_dec(dec(n)) == parse_dec(dec(n).drop_last()) * 10 + digit_val(dec(n).last()));
    }
}

pub proof fn lemma_dec_len(n: nat, m: nat)
    requires
        n < pow10(m),
        m >= 1,
    ensures
        dec(n).len() <= m,
    decreases n,
{
    if n >= 10 {
        assert(m >= 2) by {
            if m == 1 {
                assert(pow10(1) == 10 * pow10(0));
            }
        }
        assert(pow10(m) == 10 * pow10((m - 1) as nat));
        assert(n / 10 < pow10((m - 1) as nat));
        lemma_dec_len(n / 10, (m - 1) as nat);
    }
}

pub proof fn lemma_parse_concat(a: Seq<char>, b: Seq<char>)
    ensures
        parse_dec(a + b) == parse_dec(a) * pow10(b.len()) + parse_dec(b),
    decreases b.len(),
{
    if b.len() == 0 {
        assert(a + b =~= a);
        assert(parse_dec(b) == 0);
        assert(pow10(0) == 1);
    } else {
        let b2 = b.drop_last();
        assert(parse_dec(a + b) == parse_dec((a + b).drop_last()) * 10 + digit_val((a + b).last()));
        assert(parse_dec(b) == parse_dec(b2) * 10 + digit_val(b.last()));
        assert((a + b).drop_last() =~= a + b2);
        assert((a + b).last() == b.last());
        lemma_parse_concat(a, b2);
        let pa = parse_dec(a);
        let p2 = pow10(b2.len());
        let pb2 = parse_dec(b2);
        let v = digit_val(b.last());
        assert(pow10(b.len()) == 10 * p2);
        assert(parse_dec(a + b) == (pa * p2 + pb2) * 10 + v);
        assert((pa * p2 + pb2) * 10 + v == pa * (10 * p2) + (pb2 * 10 + v))
            by (nonlinear_arith);
    }
}

pub proof fn lemma_parse_zeros(j: nat)
    ensures
        parse_dec(zeros(j)) == 0,
        all_digits(zeros(j)),
    decreases j,
{
    if j > 0 {
        assert(zeros(j).drop_last() =~= zeros((j - 1) as nat));
        lemma_parse_zeros((j - 1) as nat);
    }
}

pub proof fn lemma_parse_bound(s: Seq<char>)
    ensures
        parse_dec(s) < pow10(s.len()),
    decreases s.len(),
{
    if s.len() > 0 {
        lemma_parse_bound(s.drop_last());
    }
}

pub proof fn lemma_padded(n: nat, w: nat)
    requires
        n < pow10(w),
        w >= 1,
    ensures
        padded(n, w).len() == w,
        all_digits(padded(n, w)),
        parse_dec(padded(n, w)) == n,
{
    lemma_dec(n);
    lemma_dec_len(n, w);
    let x = dec(n);
    if x.len() < w {
        let z = zeros((w - x.len()) as nat);
        lemma_parse_zeros((w - x.len()) as nat);
        lemma_parse_concat(z, x);
        assert(padded(n, w) == z + x);
        assert(parse_dec(z + x) == 0 * pow10(x.len()) + parse_dec(x));
        assert(all_digits(z + x)) by {
            assert forall|i: int| 0 <= i < (z + x).len() implies is_digit(#[trigger] (z + x)[i]) by {
                if i < z.len() {
                    assert((z + x)[i] == z[i]);
                } else {
                    assert((z + x)[i] == x[i - z.len()]);
                }
            }
        }
    }
}

proof fn lemma_strip_zeros(r: nat, m: nat)
    requires
        0 < r < pow10(m),
    ensures
        strip_zeros(r, m).1 >= 1,
        strip_zeros(r, m).1 <= m,
        strip_zeros(r, m).0 < pow10(strip_zeros(r, m).1),
        r == strip_zeros(r, m).0 * pow10((m - strip_zeros(r, m).1) as nat),
    decreases m,
{
    if m == 0 {
        assert(false);
    }
    if r % 10 == 0 {
        assert(pow10(m) == 10 * pow10((m - 1) as nat));
        assert(r / 10 < pow10((m - 1) as nat));
        assert(r / 10 > 0);
        lemma_strip_zeros(r / 10, (m - 1) as nat);
        let (r2, m2) = strip_zeros(r / 10, (m - 1) as nat);
        assert(strip_zeros(r, m) == (r2, m2));
        assert((m - m2) as nat == ((m - 1 - m2) as nat) + 1);
        lemma_pow10_add((m - 1 - m2) as nat, 1);
        assert(pow10(1) == 10) by {
            assert(pow10(1) == 10 * pow10(0));
        }
        assert(r == (r / 10) * 10);
        let x = (m - 1 - m2) as nat;
        assert((m - m2) as nat == x + 1);
        assert(pow10(x + 1) == pow10(x) * 10);
        assert(r / 10 == r2 * pow10(x));
        assert(r2 * (pow10((m - 1 - m2) as nat) * 10) == (r2 * pow10((m - 1 - m2) as nat)) * 10)
            by (nonlinear_arith);
    } else {
        assert(strip_zeros(r, m) == (r, m));
        assert(pow10(0) == 1);
        assert((m - m) as nat == 0);
    }
}

proof fn lemma_first_dot_unique(s: Seq<char>, i: int, j: int)
    requires
        first_dot_at(s, i),
        first_dot_at(s, j),
    ensures
        i == j,
{
}

/// Reading back the text of a fixed-point number gives the number.
pub proof fn lemma_fixed_round_trip(n: nat, k: nat)
    requires
        1 <= k <= 6,
        n < pow10(19),
    ensures
        parse_fixed(fixed_text(n, k), k) == Some(n),
{
    let p = pow10(k);
    lemma_pow10_pos(k);
    let q = n / p;
    let r = n % p;
    lemma_fundamental_div_mod(n as int, p as int);
    assert(n == q * p + r);
    lemma_pow10_add((19 - k) as nat, k);
    assert(((19 - k) as nat) + k == 19);
    assert(q < pow10((19 - k) as nat)) by {
        let pq = pow10((19 - k) as nat);
        assert(n < pq * p);
        if q >= pq {
            assert(q * p >= pq * p) by (nonlinear_arith)
                requires
                    q >= pq,
                    p >= 1,
            ;
        }
    }
    lemma_dec(q);
    lemma_dec_len(q, (19 - k) as nat);
    let w = dec(q);
    let s = fixed_text(n, k);
    if r == 0 {
        assert(s =~= w);
        assert forall|i: int| !first_dot_at(s, i) by {
            if 0 <= i < s.len() {
                assert(is_digit(w[i]));
            }
        }
        assert(q * p + 0 == n);
    } else {
        lemma_strip_zeros(r, k);
        let (r2, m2) = strip_zeros(r, k);
        lemma_padded(r2, m2);
        let f = padded(r2, m2);
        assert(s =~= w + (seq!['.'] + f));
        let d = w.len() as int;
        assert(first_dot_at(s, d)) by {
            assert forall|j: int| 0 <= j < d implies s[j] != '.' by {
                assert(s[j] == w[j]);
                assert(is_digit(w[j]));
            }
        }
        let c = choose|i: int| first_dot_at(s, i);
        lemma_first_dot_unique(s, c, d);
        assert(s.subrange(0, d) =~= w);
        assert(s.subrange(d + 1, s.len() as int) =~= f);
    }
}


/// Digits and at most one dot.
pub open spec fn numeric_chars(s: Seq<char>) -> bool {
    forall|i: int| 0 <= i < s.len() ==> (is_digit(#[trigger] s[i]) || s[i] == '.')
}

/// The text of a fixed-point number is short and made of digits and a dot.
pub proof fn lemma_fixed_text_shape(n: nat, k: nat)
    requires
        1 <= k <= 6,
        n < pow10(19),
    ensures
        fixed_text(n, k).len() <= 26,
        numeric_chars(fixed_text(n, k)),
{
    let p = pow10(k);
    lemma_pow10_pos(k);
    let q = n / p;
    let r = n % p;
    assert(q <= n) by (nonlinear_arith)
        requires
            p >= 1,
            q == n / p,
    ;
    lemma_dec(q);
    lemma_dec_len(q, 19);
    let w = dec(q);
    if r != 0 {
        assert(r < p);
        lemma_strip_zeros(r, k);
        let (r2, m2) = strip_zeros(r, k);
        lemma_padded(r2, m2);
        let f = seq!['.'] + padded(r2, m2);
        assert(fixed_text(n, k) =~= w + f);
        assert forall|i: int| 0 <= i < (w + f).len() implies (is_digit(#[trigger] (w + f)[i])
            || (w + f)[i] == '.') by {
            if i < w.len() {
                assert((w + f)[i] == w[i]);
            } else if i > w.len() {
                assert((w + f)[i] == padded(r2, m2)[i - w.len() - 1]);
            }
        }
    } else {
        assert(fixed_text(n, k) =~= w);
    }
}

/// The decimal text of a number below `10^m`, with its digits.
pub proof fn lemma_dec_shape(n: nat, m: nat)
    requires
        n < pow10(m),
        m >= 1,
    ensures
        dec(n).len() <= m,
        numeric_chars(dec(n)),
        digits_value(dec(n), m) == Some(n),
{
    lemma_dec(n);
    lemma_dec_len(n, m);
}

fn digit_char_of(d: u64) -> (r: char)
    requires
        d < 10,
    ensures
        r == digit_char(d as nat),
{
    if d == 0 {
        '0'
    } else if d == 1 {
        '1'
    } else if d == 2 {
        '2'
    } else if d == 3 {
        '3'
    } else if d == 4 {
        '4'
    } else if d == 5 {
        '5'
    } else if d == 6 {
        '6'
    } else if d == 7 {
        '7'
    } else if d == 8 {
        '8'
    } else {
        '9'
    }
}

fn digit_val_of(c: char) -> (r: u64)
    ensures
        r == digit_val(c),
        r < 10,
{
    if c == '1' {
        1
    } else if c == '2' {
        2
    } else if c == '3' {
        3
    } else if c == '4' {
        4
    } else if c == '5' {
        5
    } else if c == '6' {
        6
    } else if c == '7' {
        7
    } else if c == '8' {
        8
    } else if c == '9' {
        9
    } else {
        0
    }
}

/// Appends the decimal text of `n`.
pub fn push_dec(out: &mut Vec<char>, n: u64)
    ensures
        final(out)@ == old(out)@ + dec(n as nat),
    decreases n,
{
    if n < 10 {
        out.push(digit_char_of(n));
        assert(out@ =~= old(out)@ + dec(n as nat));
    } else {
        push_dec(out, n / 10);
        out.push(digit_char_of(n % 10));
        assert(out@ =~= old(out)@ + dec(n as nat));
    }
}

/// Number of digits of `n`.
fn dec_len(n: u64) -> (r: usize)
    ensures
        r == dec(n as nat).len(),
        r <= 20,
    decreases n,
{
    if n < 10 {
        1
    } else {
        let k = dec_len(n / 10);
        if k >= 20 {
            proof {
                lemma_pow10_add(1, 19);
                assert(pow10(1) == 10) by {
                    assert(pow10(1) == 10 * pow10(0));
                }
                lemma_pow10_19();
                lemma_dec_len((n / 10) as nat, 19);
            }
        }
        k + 1
    }
}

/// Appends the digits of `n` zero-padded to width `w`.
pub fn push_padded(out: &mut Vec<char>, n: u64, w: usize)
    ensures
        final(out)@ == old(out)@ + padded(n as nat, w as nat),
{
    let len = dec_len(n);
    if len < w {
        let mut i: usize = 0;
        while i < w - len
            invariant
                i <= w - len,
                len < w,
                out@ == old(out)@ + zeros(i as nat),
            decreases w - len - i,
        {
            out.push('0');
            i = i + 1;
            assert(out@ =~= old(out)@ + zeros(i as nat));
        }
    }
    let ghost mid = out@;
    push_dec(out, n);
    if len < w {
        assert(out@ =~= old(out)@ + padded(n as nat, w as nat));
    } else {
        assert(mid =~= old(out)@);
    }
}

proof fn lemma_pow10_small(k: nat)
    requires
        k <= 19,
    ensures
        pow10(k) <= 10000000000000000000,
{
    lemma_pow10_mono(k, 19);
    lemma_pow10_19();
}

proof fn lemma_pow10_19()
    ensures
        pow10(19) == 10000000000000000000,
{
    reveal_with_fuel(pow10, 20);
}

fn pow10_of(k: usize) -> (r: u64)
    requires
        k <= 19,
    ensures
        r == pow10(k as nat),
{
    let mut r: u64 = 1;
    let mut i: usize = 0;
    while i < k
        invariant
            i <= k <= 19,
            r == pow10(i as nat),
        decreases k - i,
    {
        proof {
            lemma_pow10_small((i + 1) as nat);
        }
        r = r * 10;
        i = i + 1;
    }
    r
}

/// Appends `n` units of `10^-k` as a decimal number.
pub fn push_fixed(out: &mut Vec<char>, n: u64, k: usize)
    requires
        1 <= k <= 6,
    ensures
        final(out)@ == old(out)@ + fixed_text(n as nat, k as nat),
{
    let p = pow10_of(k);
    proof {
        lemma_pow10_pos(k as nat);
    }
    push_dec(out, n / p);
    let r = n % p;
    if r != 0 {
        let ghost mid = out@;
        let mut r2: u64 = r;
        let mut m2: usize = k;
        while m2 > 0 && r2 > 0 && r2 % 10 == 0
            invariant
                strip_zeros(r2 as nat, m2 as nat) == strip_zeros(r as nat, k as nat),
                m2 <= k,
            decreases m2,
        {
            r2 = r2 / 10;
            m2 = m2 - 1;
        }
        out.push('.');
        push_padded(out, r2, m2);
        assert(out@ =~= old(out)@ + fixed_text(n as nat, k as nat));
    } else {
        assert(frac_text(r as nat, k as nat) =~= Seq::<char>::empty());
        assert(out@ =~= old(out)@ + fixed_text(n as nat, k as nat));
    }
}

fn is_digit_char(c: char) -> (r: bool)
    ensures
        r == is_digit(c),
{
    '0' <= c && c <= '9'
}

/// Value of the digits `v[lo..hi]`: 1 to `max` digits and nothing else.
pub fn parse_digits(v: &Vec<char>, lo: usize, hi: usize, max: usize) -> (r: Option<u64>)
    requires
        lo <= hi <= v.len(),
        max <= 19,
    ensures
        match r {
            Some(x) => digits_value(v@.subrange(lo as int, hi as int), max as nat) == Some(
                x as nat,
            ),
            None => digits_value(v@.subrange(lo as int, hi as int), max as nat) is None,
        },
{
    let ghost s = v@.subrange(lo as int, hi as int);
    if hi - lo < 1 || hi - lo > max {
        return None;
    }
    let mut acc: u64 = 0;
    let mut i: usize = lo;
    while i < hi
        invariant
            lo <= i <= hi <= v.len(),
            hi - lo <= max <= 19,
            s == v@.subrange(lo as int, hi as int),
            all_digits(v@.subrange(lo as int, i as int)),
            acc == parse_dec(v@.subrange(lo as int, i as int)),
        decreases hi - i,
    {
        let c = v[i];
        if !is_digit_char(c) {
            assert(s[i - lo] == c);
            return None;
        }
        let ghost pre = v@.subrange(lo as int, i as int);
        let ghost nxt = v@.subrange(lo as int, i + 1);
        proof {
            assert(nxt.drop_last() =~= pre);
            assert(nxt.last() == c);
            lemma_parse_bound(pre);
            lemma_pow10_small((i + 1 - lo) as nat);
            assert(pow10((i + 1 - lo) as nat) == 10 * pow10((i - lo) as nat));
            assert(acc * 10 + 9 < pow10((i + 1 - lo) as nat));
        }
        acc = acc * 10 + digit_val_of(c);
        i = i + 1;
        assert(all_digits(nxt));
    }
    Some(acc)
}

/// Reads `v[lo..hi]` as a decimal number with at most `k` places, in units of `10^-k`.
pub fn parse_fixed_at(v: &Vec<char>, lo: usize, hi: usize, k: usize) -> (r: Option<u64>)
    requires
        lo <= hi <= v.len(),
        1 <= k <= 6,
    ensures
        match r {
            Some(x) => parse_fixed(v@.subrange(lo as int, hi as int), k as nat) == Some(x as nat),
            None => parse_fixed(v@.subrange(lo as int, hi as int), k as nat) is None,
        },
{
    let ghost s = v@.subrange(lo as int, hi as int);
    let mut d: usize = lo;
    while d < hi && v[d] != '.'
        invariant
            lo <= d <= hi <= v.len(),
            forall|j: int| lo <= j < d ==> v@[j] != '.',
        decreases hi - d,
    {
        d = d + 1;
    }
    let p = pow10_of(k);
    if d == hi {
        proof {
            assert forall|i: int| !first_dot_at(s, i) by {
                if 0 <= i < s.len() {
                    assert(s[i] == v@[lo + i]);
                }
            }
        }
        match parse_digits(v, lo, hi, 19 - k) {
            Some(w) => {
                proof {
                    lemma_parse_bound(s);
                    lemma_pow10_add((19 - k) as nat, k as nat);
                    lemma_pow10_mono(s.len() as nat, (19 - k) as nat);
                    lemma_pow10_pos(k as nat);
                    assert(w * p < pow10((19 - k) as nat) * p) by (nonlinear_arith)
                        requires
                            w < pow10((19 - k) as nat),
                            p >= 1,
                    ;
                    lemma_pow10_small(19);
                    lemma_pow10_pos(k as nat);
                }
                Some(w * p)
            },
            None => None,
        }
    } else {
        proof {
            assert(first_dot_at(s, d - lo)) by {
                assert forall|j: int| 0 <= j < d - lo implies s[j] != '.' by {
                    assert(s[j] == v@[lo + j]);
                }
            }
            let c = choose|i: int| first_dot_at(s, i);
            lemma_first_dot_unique(s, c, d - lo);
            assert(s.subrange(0, d - lo) =~= v@.subrange(lo as int, d as int));
            assert(s.subrange(d - lo + 1, s.len() as int) =~= v@.subrange(d + 1, hi as int));
        }
        let w = parse_digits(v, lo, d, 19 - k);
        let f = parse_digits(v, d + 1, hi, k);
        match (w, f) {
            (Some(w), Some(f)) => {
                let fl = hi - (d + 1);
                let q = pow10_of(k - fl);
                proof {
                    let ws = v@.subrange(lo as int, d as int);
                    let fs = v@.subrange(d + 1, hi as int);
                    lemma_parse_bound(ws);
                    lemma_parse_bound(fs);
                    lemma_pow10_mono(ws.len() as nat, (19 - k) as nat);
                    lemma_pow10_add((19 - k) as nat, k as nat);
                    lemma_pow10_add(fl as nat, (k - fl) as nat);
                    lemma_pow10_small(19);
                    lemma_pow10_pos(k as nat);
                    lemma_pow10_pos((k - fl) as nat);
                    let a = pow10((19 - k) as nat);
                    assert(f * q < p) by (nonlinear_arith)
                        requires
                            f < pow10(fl as nat),
                            p == pow10(fl as nat) * q,
                            q >= 1,
                    ;
                    assert(w * p + f * q < a * p) by (nonlinear_arith)
                        requires
                            w < a,
                            f * q < p,
                    ;
                }
                Some(w * p + f * q)
            },
            _ => None,
        }
    }
}

} // verus!
