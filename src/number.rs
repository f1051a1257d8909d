//! Sample values as fixed-point integers.
//!
//! A sample of the exposition text is held in micro-units: the value times
//! one million, rounded down. A token is read the way a decimal float is
//! written (`12`, `0.25`, `1.5e+09`); tokens that overflow the fixed-point
//! range are refused like malformed ones. Values are shown with a fixed
//! number of decimals, computed exactly and rounded half up.
use vstd::prelude::*;

verus! {

/// Largest sample, and largest per-core sum, in micro-units.
pub const LIMIT: u128 = 1_000_000_000_000_000_000_000_000_000_000;

/// Largest exponent, and largest count of fraction digits, a token may carry.
pub const MAX_EXP: u32 = 30;

pub open spec fn pow10(n: nat) -> nat
    decreases n,
{
    if n == 0 {
        1
    } else {
        10 * pow10((n - 1) as nat)
    }
}

pub open spec fn is_digit(c: char) -> bool {
    '0' <= c && c <= '9'
}

pub open spec fn digit_value(c: char) -> nat {
    (c as u32 - '0' as u32) as nat
}

/// The state of reading a sample token from left to right.
/// `phase` is 0 in the integer part, 1 after the point, 2 right after the
/// exponent mark and 3 inside the exponent.
#[derive(Clone, Copy)]
pub struct Scan {
    pub phase: u8,
    pub mant: u128,
    pub frac: u32,
    pub exp: u32,
    pub digits: bool,
    pub exp_digits: bool,
    pub ok: bool,
}

pub open spec fn scan_start() -> Scan {
    Scan { phase: 0, mant: 0, frac: 0, exp: 0, digits: false, exp_digits: false, ok: true }
}

pub open spec fn failed(st: Scan) -> Scan {
    Scan { ok: false, ..st }
}

/// One character of a token.
pub open spec fn scan_step(st: Scan, c: char) -> Scan {
    if !st.ok {
        st
    } else if is_digit(c) {
        if st.phase <= 1 {
            let m = st.mant * 10 + digit_value(c);
            if m > u128::MAX || (st.phase == 1 && st.frac >= MAX_EXP) {
                failed(st)
            } else {
                Scan {
                    mant: m as u128,
                    frac: if st.phase == 1 { (st.frac + 1) as u32 } else { st.frac },
                    digits: true,
                    ..st
                }
            }
        } else {
            let e = st.exp * 10 + digit_value(c);
            if e > MAX_EXP {
                failed(st)
            } else {
                Scan { phase: 3, exp: e as u32, exp_digits: true, ..st }
            }
        }
    } else if c == '.' && st.phase == 0 {
        Scan { phase: 1, ..st }
    } else if c == 'e' && st.phase <= 1 && st.digits {
        Scan { phase: 2, ..st }
    } else if c == '+' && st.phase == 2 {
        Scan { phase: 3, ..st }
    } else {
        failed(st)
    }
}

pub open spec fn scan(s: Seq<char>) -> Scan
    decreases s.len(),
{
    if s.len() == 0 {
        scan_start()
    } else {
        scan_step(scan(s.drop_last()), s.last())
    }
}

/// The exact value of a completed scan, in micro-units, rounded down.
pub open spec fn scan_micros(st: Scan) -> nat {
    if 6 + st.exp >= st.frac {
        (st.mant as nat * pow10((6 + st.exp - st.frac) as nat)) as nat
    } else {
        (st.mant as nat / pow10((st.frac - 6 - st.exp) as nat)) as nat
    }
}

/// The value of a sample token in micro-units, or `None` where the token is
/// malformed or out of range.
pub open spec fn sample_value(tok: Seq<char>) -> Option<u128> {
    let st = scan(tok);
    if st.ok && st.digits && (st.phase <= 1 || st.exp_digits) && scan_micros(st) <= LIMIT {
        Some(scan_micros(st) as u128)
    } else {
        None
    }
}

/// The value of a string of decimal digits.
pub open spec fn digits_value(s: Seq<char>) -> nat
    decreases s.len(),
{
    if s.len() == 0 {
        0
    } else {
        digits_value(s.drop_last()) * 10 + digit_value(s.last())
    }
}

/// The value of an identifier made of decimal digits, where it fits `u64`.
pub open spec fn index_value(s: Seq<char>) -> Option<u64> {
    if s.len() > 0 && (forall|i: int| 0 <= i < s.len() ==> is_digit(#[trigger] s[i]))
        && digits_value(s) <= u64::MAX {
        Some(digits_value(s) as u64)
    } else {
        None
    }
}

fn step(st: Scan, c: char) -> (r: Scan)
    ensures
        r == scan_step(st, c),
{
    if !st.ok {
        return st;
    }
    if '0' <= c && c <= '9' {
        let d = (c as u32 - '0' as u32) as u128;
        if st.phase <= 1 {
            if st.mant > (u128::MAX - d) / 10 {
                assert(st.mant * 10 + d > u128::MAX) by (nonlinear_arith)
                    requires
                        st.mant > (u128::MAX - d) / 10,
                ;
                Scan { ok: false, ..st }
            } else if st.phase == 1 && st.frac >= MAX_EXP {
                Scan { ok: false, ..st }
            } else {
                assert(st.mant * 10 + d <= u128::MAX) by (nonlinear_arith)
                    requires
                        st.mant <= (u128::MAX - d) / 10,
                ;
                Scan {
                    mant: st.mant * 10 + d,
                    frac: if st.phase == 1 { st.frac + 1 } else { st.frac },
                    digits: true,
                    ..st
                }
            }
        } else {
            if st.exp > MAX_EXP || st.exp * 10 + d as u32 > MAX_EXP {
                Scan { ok: false, ..st }
            } else {
                Scan { phase: 3, exp: st.exp * 10 + d as u32, exp_digits: true, ..st }
            }
        }
    } else if c == '.' && st.phase == 0 {
        Scan { phase: 1, ..st }
    } else if c == 'e' && st.phase <= 1 && st.digits {
        Scan { phase: 2, ..st }
    } else if c == '+' && st.phase == 2 {
        Scan { phase: 3, ..st }
    } else {
        Scan { ok: false, ..st }
    }
}

pub fn pow10_exec(n: u32) -> (r: u128)
    requires
        n <= 38,
    ensures
        r == pow10(n as nat),
        r >= 1,
{
    proof {
        lemma_pow10_bound(n as nat);
    }
    let mut r: u128 = 1;
    let mut i: u32 = 0;
    while i < n
        invariant
            i <= n <= 38,
            r == pow10(i as nat),
        decreases n - i,
    {
        proof {
            lemma_pow10_bound(i as nat);
            lemma_pow10_mono(i as nat, 37);
            lemma_pow10_bound(37);
        }
        r = r * 10;
        i = i + 1;
    }
    r
}

pub proof fn lemma_pow10_bound(n: nat)
    ensures
        pow10(n) >= 1,
        n == 4 ==> pow10(n) == 10_000,
        n == 5 ==> pow10(n) == 100_000,
        n == 6 ==> pow10(n) == 1_000_000,
        n == 37 ==> pow10(n) == 10_000_000_000_000_000_000_000_000_000_000_000_000,
    decreases n,
{
    reveal_with_fuel(pow10, 38);
    if n > 0 {
        lemma_pow10_bound((n - 1) as nat);
    }
}

pub proof fn lemma_pow10_mono(a: nat, b: nat)
    requires
        a <= b,
    ensures
        pow10(a) <= pow10(b),
    decreases b - a,
{
    if a < b {
        lemma_pow10_mono(a, (b - 1) as nat);
        lemma_pow10_bound((b - 1) as nat);
    }
}

/// Reads a sample token into micro-units.
pub fn parse_sample(tok: &Vec<char>) -> (r: Option<u128>)
    ensures
        r == sample_value(tok@),
{
    let mut st = Scan { phase: 0, mant: 0, frac: 0, exp: 0, digits: false, exp_digits: false, ok: true };
    let mut i: usize = 0;
    while i < tok.len()
        invariant
            i <= tok@.len(),
            st == scan(tok@.take(i as int)),
            st.ok ==> st.frac <= MAX_EXP && st.exp <= MAX_EXP,
        decreases tok@.len() - i,
    {
        assert(tok@.take(i as int + 1).drop_last() == tok@.take(i as int));
        st = step(st, tok[i]);
        i = i + 1;
    }
    assert(tok@.take(i as int) == tok@);
    if !(st.ok && st.digits && (st.phase <= 1 || st.exp_digits)) {
        return None;
    }
    proof {
        lemma_pow10_bound(37);
    }
    let v: u128;
    if 6 + st.exp >= st.frac {
        let p = pow10_exec(6 + st.exp - st.frac);
        match st.mant.checked_mul(p) {
            Some(m) => {
                v = m;
            },
            None => {
                return None;
            },
        }
    } else {
        let p = pow10_exec(st.frac - 6 - st.exp);
        v = st.mant / p;
    }
    if v <= LIMIT {
        Some(v)
    } else {
        None
    }
}

/// Reads a string of decimal digits as a `u64`.
pub fn parse_index(s: &Vec<char>) -> (r: Option<u64>)
    ensures
        r == index_value(s@),
{
    if s.len() == 0 {
        return None;
    }
    let mut v: u64 = 0;
    let mut i: usize = 0;
    while i < s.len()
        invariant
            0 < s@.len(),
            i <= s@.len(),
            v == digits_value(s@.take(i as int)),
            forall|j: int| 0 <= j < i ==> is_digit(#[trigger] s@[j]),
        decreases s@.len() - i,
    {
        assert(s@.take(i as int + 1).drop_last() == s@.take(i as int));
        let c = s[i];
        if !('0' <= c && c <= '9') {
            return None;
        }
        let d = (c as u32 - '0' as u32) as u64;
        if v > (u64::MAX - d) / 10 {
            proof {
                assert(v * 10 + d > u64::MAX) by (nonlinear_arith)
                    requires
                        v > (u64::MAX - d) / 10,
                ;
                if forall|j: int| 0 <= j < s@.len() ==> is_digit(#[trigger] s@[j]) {
                    lemma_digits_prefix(s@, i as int + 1);
                }
            }
            return None;
        }
        assert(v * 10 + d <= u64::MAX) by (nonlinear_arith)
            requires
                v <= (u64::MAX - d) / 10,
        ;
        v = v * 10 + d;
        i = i + 1;
    }
    assert(s@.take(i as int) == s@);
    Some(v)
}

/// A longer digit string never has a smaller value.
pub proof fn lemma_digits_prefix(s: Seq<char>, n: int)
    requires
        0 <= n <= s.len(),
        forall|j: int| 0 <= j < s.len() ==> is_digit(#[trigger] s[j]),
    ensures
        digits_value(s.take(n)) <= digits_value(s),
    decreases s.len() - n,
{
    if n < s.len() {
        assert(s.take(n + 1).drop_last() == s.take(n));
        assert(digits_value(s.take(n + 1)) == digits_value(s.take(n)) * 10 + digit_value(
            s.take(n + 1).last(),
        ));
        lemma_digits_prefix(s, n + 1);
    } else {
        assert(s.take(n) == s);
    }
}

pub open spec fn digit_char(d: nat) -> char {
    if d == 0 { '0' } else if d == 1 { '1' } else if d == 2 { '2' } else if d == 3 { '3' }
    else if d == 4 { '4' } else if d == 5 { '5' } else if d == 6 { '6' } else if d == 7 { '7' }
    else if d == 8 { '8' } else { '9' }
}

/// The decimal digits of `n`, without leading zeros.
pub open spec fn decimal(n: nat) -> Seq<char>
    decreases n,
{
    if n < 10 {
        seq![digit_char(n)]
    } else {
        decimal(n / 10).push(digit_char(n % 10))
    }
}

/// The last `w` decimal digits of `n`, with leading zeros.
pub open spec fn padded(n: nat, w: nat) -> Seq<char>
    decreases w,
{
    if w == 0 {
        seq![]
    } else {
        padded(n / 10, (w - 1) as nat).push(digit_char(n % 10))
    }
}

/// `n / 10^places` written with `places` digits after the point.
pub open spec fn fixed_text(n: nat, places: nat) -> Seq<char> {
    decimal(n / pow10(places)) + seq!['.'] + padded(n % pow10(places), places)
}

/// `a / b`, rounded to the nearest integer, halves up.
pub open spec fn round_div(a: nat, b: nat) -> nat {
    (2 * a + b) / (2 * b)
}

fn digit_char_exec(d: u128) -> (c: char)
    requires
        d < 10,
    ensures
        c == digit_char(d as nat),
{
    if d == 0 { '0' } else if d == 1 { '1' } else if d == 2 { '2' } else if d == 3 { '3' }
    else if d == 4 { '4' } else if d == 5 { '5' } else if d == 6 { '6' } else if d == 7 { '7' }
    else if d == 8 { '8' } else { '9' }
}

/// Appends the decimal digits of `n`.
pub fn push_decimal(out: &mut Vec<char>, n: u128)
    ensures
        final(out)@ == old(out)@ + decimal(n as nat),
    decreases n,
{
    if n >= 10 {
        push_decimal(out, n / 10);
    }
    out.push(digit_char_exec(n % 10));
}

/// Appends the last `w` digits of `n`, with leading zeros.
pub fn push_padded(out: &mut Vec<char>, n: u128, w: u32)
    ensures
        final(out)@ == old(out)@ + padded(n as nat, w as nat),
    decreases w,
{
    if w > 0 {
        push_padded(out, n / 10, w - 1);
        out.push(digit_char_exec(n % 10));
    }
}

/// Appends `n / 10^places` with `places` digits after the point.
pub fn push_fixed(out: &mut Vec<char>, n: u128, places: u32)
    requires
        places <= 38,
    ensures
        final(out)@ == old(out)@ + fixed_text(n as nat, places as nat),
{
    let p = pow10_exec(places);
    push_decimal(out, n / p);
    out.push('.');
    push_padded(out, n % p, places);
}

/// `a / b` rounded to the nearest integer, halves up.
pub fn round_div_exec(a: u128, b: u128) -> (r: u128)
    requires
        0 < b,
        2 * a + b <= u128::MAX,
        2 * b <= u128::MAX,
    ensures
        r == round_div(a as nat, b as nat),
{
    (2 * a + b) / (2 * b)
}

/// A value in micro-units, in hundredths, rounded.
pub open spec fn cents(v: u128) -> nat {
    round_div(v as nat, 10_000)
}

/// A value in micro-units, in hundredths, rounded.
pub fn cents_exec(v: u128) -> (r: u128)
    ensures
        r == cents(v),
{
    let q = v / 10_000;
    let m = v % 10_000;
    let r = if m >= 5_000 { q + 1 } else { q };
    assert(r == (2 * v + 10_000) / 20_000) by (nonlinear_arith)
        requires
            q == v / 10_000,
            m == v % 10_000,
            m >= 5_000 ==> r == q + 1,
            m < 5_000 ==> r == q,
    ;
    r
}

} // verus!
