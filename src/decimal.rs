//! Fixed-point decimal numbers: text rendering with rounding, and parsing.
//!
//! Prices are held as whole numbers of `1 / PRICE_SCALE` currency units.

use vstd::prelude::*;

verus! {

/// Number of price units in one whole currency unit (eight decimal places).
pub const PRICE_SCALE: u64 = 100_000_000;

/// Number of decimal places of `PRICE_SCALE`.
pub const PRICE_PLACES: u64 = 8;

/// `10` raised to `n`.
pub open spec fn pow10(n: nat) -> nat
    decreases n,
{
    if n == 0 {
        1
    } else {
        10 * pow10((n - 1) as nat)
    }
}

/// `n / d`, rounded to the nearest whole number, ties to the even neighbour.
pub open spec fn round_div(n: nat, d: nat) -> nat
    recommends
        d > 0,
{
    let q = n / d;
    let r = n % d;
    if 2 * r > d || (2 * r == d && q % 2 == 1) {
        q + 1
    } else {
        q
    }
}

/// The decimal digit character of `d`.
pub open spec fn digit_char(d: nat) -> char
    recommends
        d < 10,
{
    ((d + 48) as u8) as char
}

/// The decimal representation of `n`, without leading zeros.
pub open spec fn digits(n: nat) -> Seq<char>
    decreases n,
{
    if n < 10 {
        seq![digit_char(n)]
    } else {
        digits(n / 10).push(digit_char(n % 10))
    }
}

/// The last `w` decimal digits of `n`, padded on the left with zeros.
pub open spec fn padded(n: nat, w: nat) -> Seq<char>
    decreases w,
{
    if w == 0 {
        Seq::empty()
    } else {
        padded(n / 10, (w - 1) as nat).push(digit_char(n % 10))
    }
}

/// The text of `v / 10^places` with exactly `places` digits after the point.
pub open spec fn fixed_text(v: nat, places: nat) -> Seq<char> {
    if places == 0 {
        digits(v)
    } else {
        digits(v / pow10(places)) + seq!['.'] + padded(v, places)
    }
}

/// Relies on `String::push`: the character is appended at the end.
#[verifier::external_body]
pub(crate) fn push_char(s: &mut String, c: char)
    ensures
        final(s)@ == old(s)@.push(c),
{
    s.push(c);
}

fn digit_of(d: u128) -> (c: char)
    requires
        d < 10,
    ensures
        c == digit_char(d as nat),
{
    ((d as u8) + 48) as char
}

/// Appends the decimal digits of `n`.
pub(crate) fn push_digits(s: &mut String, n: u128)
    ensures
        final(s)@ == old(s)@ + digits(n as nat),
    decreases n,
{
    if n >= 10 {
        push_digits(s, n / 10);
    }
    push_char(s, digit_of(n % 10));
    proof {
        if n >= 10 {
            assert(digits(n as nat) == digits((n / 10) as nat).push(digit_char((n % 10) as nat)));
        }
    }
}

/// Appends the last `w` digits of `n`, zero-padded.
pub(crate) fn push_padded(s: &mut String, n: u128, w: u64)
    ensures
        final(s)@ == old(s)@ + padded(n as nat, w as nat),
    decreases w,
{
    if w > 0 {
        push_padded(s, n / 10, w - 1);
        push_char(s, digit_of(n % 10));
    }
}

pub(crate) fn pow10_exec(n: u64) -> (r: u128)
    requires
        n <= 30,
    ensures
        r == pow10(n as nat),
        r > 0,
    decreases n,
{
    if n == 0 {
        1
    } else {
        let p = pow10_exec(n - 1);
        proof {
            lemma_pow10_mono((n - 1) as nat, 29);
            reveal_with_fuel(pow10, 30);
            assert(pow10(29) == 100_000_000_000_000_000_000_000_000_000);
        }
        10 * p
    }
}

proof fn lemma_pow10_mono(a: nat, b: nat)
    requires
        a <= b,
    ensures
        0 < pow10(a) <= pow10(b),
    decreases b,
{
    if b > a {
        lemma_pow10_mono(a, (b - 1) as nat);
    } else if a > 0 {
        lemma_pow10_mono((a - 1) as nat, (a - 1) as nat);
    }
}

/// Appends the fixed-point text of `v` with `places` decimals.
pub(crate) fn push_fixed(s: &mut String, v: u128, places: u64)
    requires
        places <= 30,
    ensures
        final(s)@ == old(s)@ + fixed_text(v as nat, places as nat),
{
    if places == 0 {
        push_digits(s, v);
    } else {
        let p = pow10_exec(places);
        push_digits(s, v / p);
        push_char(s, '.');
        push_padded(s, v, places);
        assert(final(s)@ =~= old(s)@ + fixed_text(v as nat, places as nat));
    }
}

/// `n / d` rounded to the nearest whole number, ties to even.
pub fn round_div_exec(n: u128, d: u128) -> (r: u128)
    requires
        d > 0,
        n <= u64::MAX as nat * 10_000,
    ensures
        r == round_div(n as nat, d as nat),
{
    let q = n / d;
    let rem = n % d;
    if rem > d - rem || (rem == d - rem && q % 2 == 1) {
        q + 1
    } else {
        q
    }
}

/// Whether `c` is an ASCII decimal digit.
pub open spec fn is_digit(c: char) -> bool {
    '0' <= c && c <= '9'
}

/// The value of the digit character `c`.
pub open spec fn digit_value(c: char) -> nat {
    ((c as u32) - 48) as nat
}

pub open spec fn all_digits(s: Seq<char>) -> bool {
    forall|i: int| 0 <= i < s.len() ==> is_digit(#[trigger] s[i])
}

/// The number that the digit sequence `ds` spells out.
pub open spec fn digits_value(ds: Seq<char>) -> nat
    decreases ds.len(),
{
    if ds.len() == 0 {
        0
    } else {
        digits_value(ds.drop_last()) * 10 + digit_value(ds.last())
    }
}

/// The price units of a fraction written with the digits `f` after the point;
/// digits past the eighth are dropped.
pub open spec fn fraction_units(f: Seq<char>) -> nat {
    if f.len() <= PRICE_PLACES {
        digits_value(f) * pow10((PRICE_PLACES - f.len()) as nat)
    } else {
        digits_value(f.take(PRICE_PLACES as int))
    }
}

/// `b` is digits with a single decimal point at `k` and at least one digit.
pub open spec fn point_at(b: Seq<char>, k: int) -> bool {
    &&& 0 <= k < b.len()
    &&& b[k] == '.'
    &&& b.len() >= 2
    &&& forall|i: int| 0 <= i < b.len() && i != k ==> is_digit(#[trigger] b[i])
}

/// The price units of an unsigned decimal number such as `123`, `0.5`, `7.`
/// or `.25`; `None` where `b` is not one.
pub open spec fn unsigned_units(b: Seq<char>) -> Option<nat> {
    if b.len() > 0 && all_digits(b) {
        Some(digits_value(b) * (PRICE_SCALE as nat))
    } else if exists|k: int| point_at(b, k) {
        let k = choose|k: int| point_at(b, k);
        Some(digits_value(b.take(k)) * (PRICE_SCALE as nat) + fraction_units(b.skip(k + 1)))
    } else {
        None
    }
}

/// The price units of a price text: an unsigned decimal number with an
/// optional leading `+`.
pub open spec fn price_units(s: Seq<char>) -> Option<nat> {
    if s.len() > 0 && s[0] == '+' {
        unsigned_units(s.drop_first())
    } else {
        unsigned_units(s)
    }
}

/// The price units of a signed decimal number: a price text, or `-` followed
/// by an unsigned decimal number.
pub open spec fn signed_units(s: Seq<char>) -> Option<int> {
    if s.len() > 0 && s[0] == '-' {
        match unsigned_units(s.drop_first()) {
            Some(v) => Some(-v),
            None => None,
        }
    } else {
        match price_units(s) {
            Some(v) => Some(v as int),
            None => None,
        }
    }
}

proof fn lemma_digits_value_prefix(p: Seq<char>, j: int)
    requires
        0 <= j <= p.len(),
    ensures
        digits_value(p.take(j)) <= digits_value(p),
    decreases p.len(),
{
    if j < p.len() {
        lemma_digits_value_prefix(p.drop_last(), j);
        assert(p.drop_last().take(j) =~= p.take(j));
    } else {
        assert(p.take(j) =~= p);
    }
}

proof fn lemma_digits_value_step(p: Seq<char>, i: int)
    requires
        0 <= i < p.len(),
    ensures
        digits_value(p.take(i + 1)) == digits_value(p.take(i)) * 10 + digit_value(p[i]),
{
    assert(p.take(i + 1).drop_last() =~= p.take(i));
}

fn chars_of(s: &str) -> (r: Vec<char>)
    ensures
        r@ == s@,
{
    let n = s.unicode_len();
    let mut r: Vec<char> = Vec::new();
    let mut i: usize = 0;
    while i < n
        invariant
            n == s@.len(),
            i <= n,
            r@ == s@.take(i as int),
        decreases n - i,
    {
        r.push(s.get_char(i));
        i += 1;
        assert(r@ =~= s@.take(i as int));
    }
    assert(s@.take(n as int) =~= s@);
    r
}

/// Reads the digits `cs[from..to]` as a number; `None` where one is not a
/// digit or the number exceeds `u64::MAX`.
fn read_digits(cs: &Vec<char>, from: usize, to: usize) -> (r: Option<u64>)
    requires
        from <= to <= cs@.len(),
    ensures
        match r {
            Some(v) => all_digits(cs@.subrange(from as int, to as int)) && v == digits_value(
                cs@.subrange(from as int, to as int),
            ),
            None => !all_digits(cs@.subrange(from as int, to as int)) || digits_value(
                cs@.subrange(from as int, to as int),
            ) > u64::MAX,
        },
{
    let ghost p = cs@.subrange(from as int, to as int);
    let mut acc: u128 = 0;
    let mut i: usize = from;
    while i < to
        invariant
            from <= i <= to <= cs@.len(),
            p == cs@.subrange(from as int, to as int),
            all_digits(p.take(i - from)),
            acc == digits_value(p.take(i - from)),
            acc <= u64::MAX,
        decreases to - i,
    {
        let c = cs[i];
        if !('0' <= c && c <= '9') {
            assert(p[i - from] == c);
            return None;
        }
        proof {
            lemma_digits_value_step(p, i - from);
        }
        acc = acc * 10 + ((c as u32) - 48) as u128;
        i += 1;
        assert(all_digits(p.take(i - from))) by {
            assert forall|j: int| 0 <= j < p.take(i - from).len() implies is_digit(
                #[trigger] p.take(i - from)[j],
            ) by {
                if j < i - 1 - from {
                    assert(p.take(i - from)[j] == p.take(i - 1 - from)[j]);
                }
            }
        }
        if acc > u64::MAX as u128 {
            proof {
                lemma_digits_value_prefix(p, i - from);
            }
            return None;
        }
    }
    assert(p.take(to - from) =~= p);
    Some(acc as u64)
}

proof fn lemma_digits_value_bound(p: Seq<char>)
    requires
        all_digits(p),
    ensures
        digits_value(p) < pow10(p.len()),
    decreases p.len(),
{
    if p.len() > 0 {
        let q = p.drop_last();
        assert(all_digits(q)) by {
            assert forall|i: int| 0 <= i < q.len() implies is_digit(#[trigger] q[i]) by {
                assert(q[i] == p[i]);
            }
        }
        lemma_digits_value_bound(q);
        assert(is_digit(p[p.len() - 1]));
        let a = digits_value(q);
        let b = pow10(q.len());
        assert(a * 10 + digit_value(p.last()) < b * 10) by (nonlinear_arith)
            requires
                a < b,
                digit_value(p.last()) < 10,
        ;
    }
}

fn all_digits_in(cs: &Vec<char>, from: usize, to: usize) -> (r: bool)
    requires
        from <= to <= cs@.len(),
    ensures
        r == all_digits(cs@.subrange(from as int, to as int)),
{
    let mut i: usize = from;
    while i < to
        invariant
            from <= i <= to <= cs@.len(),
            forall|j: int| from <= j < i ==> is_digit(#[trigger] cs@[j]),
        decreases to - i,
    {
        if !('0' <= cs[i] && cs[i] <= '9') {
            assert(cs@.subrange(from as int, to as int)[i - from] == cs@[i as int]);
            return false;
        }
        i += 1;
    }
    assert forall|j: int| 0 <= j < to - from implies is_digit(
        #[trigger] cs@.subrange(from as int, to as int)[j],
    ) by {
        assert(cs@.subrange(from as int, to as int)[j] == cs@[from + j]);
    }
    true
}

/// Reads `cs[start..]` as an unsigned decimal number in price units.
fn parse_unsigned(cs: &Vec<char>, start: usize) -> (r: Option<u64>)
    requires
        start <= cs@.len(),
    ensures
        match r {
            Some(v) => unsigned_units(cs@.skip(start as int)) == Some(v as nat),
            None => match unsigned_units(cs@.skip(start as int)) {
                Some(x) => x > u64::MAX,
                None => true,
            },
        },
{
    let ghost b = cs@.skip(start as int);
    let len = cs.len();
    let mut k: usize = start;
    while k < len && cs[k] != '.'
        invariant
            start <= k <= len == cs@.len(),
            forall|j: int| start <= j < k ==> cs@[j] != '.',
        decreases len - k,
    {
        k += 1;
    }
    let ghost kk = k - start;
    assert(b.len() == len - start);
    assert forall|j: int| 0 <= j < b.len() implies #[trigger] b[j] == cs@[start + j] by {}
    if k == len {
        assert(forall|k2: int| !point_at(b, k2)) by {
            assert forall|k2: int| !point_at(b, k2) by {
                if 0 <= k2 < b.len() {
                    assert(b[k2] == cs@[start + k2]);
                }
            }
        }
        assert(cs@.subrange(start as int, len as int) =~= b);
        if len == start {
            return None;
        }
        match read_digits(cs, start, len) {
            None => {
                return None;
            },
            Some(v) => {
                if v > u64::MAX / PRICE_SCALE {
                    return None;
                }
                return Some(v * PRICE_SCALE);
            },
        }
    }
    assert(b[kk] == '.');
    assert(!all_digits(b)) by {
        assert(!is_digit(b[kk]));
    }
    let int_ok = all_digits_in(cs, start, k);
    let frac_ok = all_digits_in(cs, k + 1, len);
    let ghost ip = cs@.subrange(start as int, k as int);
    let ghost fp = cs@.subrange(k + 1, len as int);
    assert(ip =~= b.take(kk));
    assert(fp =~= b.skip(kk + 1));
    if !int_ok || !frac_ok || len - start < 2 {
        assert forall|k2: int| !point_at(b, k2) by {
            if point_at(b, k2) {
                if k2 < kk {
                    assert(b[k2] == cs@[start + k2]);
                } else if k2 > kk {
                    assert(is_digit(b[kk]));
                } else {
                    if !int_ok {
                        let j = choose|j: int| 0 <= j < ip.len() && !is_digit(#[trigger] ip[j]);
                        assert(ip[j] == b[j]);
                    }
                    if !frac_ok {
                        let j = choose|j: int| 0 <= j < fp.len() && !is_digit(#[trigger] fp[j]);
                        assert(fp[j] == b[kk + 1 + j]);
                    }
                }
            }
        }
        return None;
    }
    assert(point_at(b, kk)) by {
        assert forall|i: int| 0 <= i < b.len() && i != kk implies is_digit(#[trigger] b[i]) by {
            if i < kk {
                assert(b[i] == ip[i]);
            } else {
                assert(b[i] == fp[i - kk - 1]);
            }
        }
    }
    let ghost kc = choose|k2: int| point_at(b, k2);
    assert(kc == kk) by {
        if kc != kk {
            assert(is_digit(b[kk]));
        }
    }
    let int_v = match read_digits(cs, start, k) {
        None => {
            return None;
        },
        Some(v) => v,
    };
    let flen = len - (k + 1);
    let n: usize = if flen <= 8 { flen } else { 8 };
    let ghost fq = cs@.subrange(k + 1, (k + 1 + n) as int);
    assert(all_digits(fq)) by {
        assert forall|j: int| 0 <= j < fq.len() implies is_digit(#[trigger] fq[j]) by {
            assert(fq[j] == fp[j]);
        }
    }
    proof {
        lemma_digits_value_bound(fq);
        lemma_pow10_mono(n as nat, 8);
        reveal_with_fuel(pow10, 9);
    }
    let fv = match read_digits(cs, k + 1, k + 1 + n) {
        None => {
            return None;
        },
        Some(v) => v,
    };
    let frac: u128 = if flen <= 8 {
        let m = pow10_exec((8 - n) as u64);
        proof {
            lemma_pow10_mono((8 - n) as nat, 8);
            assert(fq =~= fp);
            assert(fv * m <= 100_000_000 * 100_000_000) by (nonlinear_arith)
                requires
                    fv < 100_000_000,
                    m <= 100_000_000,
            ;
        }
        fv as u128 * m
    } else {
        assert(fq =~= fp.take(8));
        fv as u128
    };
    assert(frac == fraction_units(fp));
    let total: u128 = int_v as u128 * PRICE_SCALE as u128 + frac;
    if total > u64::MAX as u128 {
        return None;
    }
    Some(total as u64)
}

/// Reads a price text (`45231.7`, `+0.25`) as price units: `None` where the
/// text is not an unsigned decimal number or the value exceeds `u64::MAX`.
/// Digits past the eighth decimal place are dropped.
pub fn parse_price(s: &str) -> (r: Option<u64>)
    ensures
        match r {
            Some(v) => price_units(s@) == Some(v as nat),
            None => match price_units(s@) {
                Some(x) => x > u64::MAX,
                None => true,
            },
        },
{
    let cs = chars_of(s);
    if cs.len() > 0 && cs[0] == '+' {
        assert(cs@.skip(1) =~= s@.drop_first());
        parse_unsigned(&cs, 1)
    } else {
        assert(cs@.skip(0) =~= s@);
        parse_unsigned(&cs, 0)
    }
}

/// Reads a signed decimal number (`-12.5`, `3`) as price units: `None` where
/// the text is not one or its magnitude exceeds `u64::MAX`.
pub fn parse_signed(s: &str) -> (r: Option<i128>)
    ensures
        match r {
            Some(v) => signed_units(s@) == Some(v as int),
            None => match signed_units(s@) {
                Some(x) => x > u64::MAX || x < -(u64::MAX as int),
                None => true,
            },
        },
{
    let cs = chars_of(s);
    if cs.len() > 0 && cs[0] == '-' {
        assert(cs@.skip(1) =~= s@.drop_first());
        match parse_unsigned(&cs, 1) {
            Some(v) => Some(-(v as i128)),
            None => None,
        }
    } else {
        match parse_price(s) {
            Some(v) => Some(v as i128),
            None => None,
        }
    }
}

} // verus!
