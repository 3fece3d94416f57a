//! Decimal numerals: rendering integers as `Display` and `{:0w}` do, and
//! reading them as `str::parse` does.

use vstd::prelude::*;

verus! {

/// The ASCII digit for `d` (0..=9).
pub open spec fn digit_char(d: int) -> char {
    (d + 48) as char
}

/// The decimal digits of `n`, without leading zeros (`"0"` for zero).
pub open spec fn decimal(n: nat) -> Seq<char>
    decreases n,
{
    if n < 10 {
        seq![digit_char(n as int)]
    } else {
        decimal(n / 10).push(digit_char((n % 10) as int))
    }
}

/// `n` as `Display` renders it: a `'-'` before the digits of a negative number.
pub open spec fn signed_decimal(n: int) -> Seq<char> {
    if n < 0 {
        seq!['-'] + decimal((-n) as nat)
    } else {
        decimal(n as nat)
    }
}

/// `s` padded on the left with `'0'` to at least `w` characters.
pub open spec fn zero_pad(s: Seq<char>, w: int) -> Seq<char> {
    if s.len() < w {
        Seq::new((w - s.len()) as nat, |i: int| '0') + s
    } else {
        s
    }
}

/// `n` as `format!("{:0w}", n)` renders it: the sign counts in the width and the
/// zeros stand between the sign and the digits.
pub open spec fn padded_decimal(n: int, w: int) -> Seq<char> {
    if n < 0 {
        seq!['-'] + zero_pad(decimal((-n) as nat), w - 1)
    } else {
        zero_pad(decimal(n as nat), w)
    }
}

proof fn lemma_decimal_len(n: nat)
    ensures
        decimal(n).len() >= 1,
    decreases n,
{
    if n >= 10 {
        lemma_decimal_len(n / 10);
    }
}

fn digit_of(d: u64) -> (c: char)
    requires
        d < 10,
    ensures
        c == digit_char(d as int),
{
    let b: u8 = d as u8 + 48;
    b as char
}

fn push_decimal(n: u64, out: &mut Vec<char>)
    ensures
        final(out)@ == old(out)@ + decimal(n as nat),
    decreases n,
{
    if n >= 10 {
        push_decimal(n / 10, out);
    }
    let c = digit_of(n % 10);
    out.push(c);
    proof {
        if n >= 10 {
            assert(decimal(n as nat) == decimal((n / 10) as nat).push(c));
        } else {
            assert(decimal(n as nat) == seq![c]);
        }
    }
}

/// The decimal digits of `n`.
pub fn decimal_u64(n: u64) -> (r: Vec<char>)
    ensures
        r@ == decimal(n as nat),
{
    let mut r: Vec<char> = Vec::new();
    push_decimal(n, &mut r);
    assert(r@ == decimal(n as nat));
    r
}

fn magnitude(n: i64) -> (m: u64)
    ensures
        m as int == if n < 0 {
            -n
        } else {
            n as int
        },
{
    if n < 0 {
        let p: i64 = -(n + 1);
        p as u64 + 1
    } else {
        n as u64
    }
}

/// `n` as `Display` renders it.
pub fn signed_decimal_i64(n: i64) -> (r: Vec<char>)
    ensures
        r@ == signed_decimal(n as int),
{
    let m = magnitude(n);
    let mut r: Vec<char> = Vec::new();
    if n < 0 {
        r.push('-');
    }
    push_decimal(m, &mut r);
    r
}

fn push_zero_padded(digits: &Vec<char>, w: usize, out: &mut Vec<char>)
    ensures
        final(out)@ == old(out)@ + zero_pad(digits@, w as int),
{
    let ghost start = out@;
    if digits.len() < w {
        let fill = w - digits.len();
        let mut k: usize = 0;
        while k < fill
            invariant
                k <= fill,
                out@ == start + Seq::new(k as nat, |i: int| '0'),
            decreases fill - k,
        {
            out.push('0');
            k = k + 1;
            assert(out@ == start + Seq::new(k as nat, |i: int| '0'));
        }
    }
    let mut k: usize = 0;
    let ghost mid = out@;
    while k < digits.len()
        invariant
            k <= digits.len(),
            out@ == mid + digits@.take(k as int),
        decreases digits.len() - k,
    {
        out.push(digits[k]);
        k = k + 1;
        assert(out@ == mid + digits@.take(k as int));
    }
    assert(digits@.take(digits.len() as int) == digits@);
}

/// `format!("{:0w}", n)`, appended to `out`.
pub fn push_padded_i64(n: i64, w: usize, out: &mut Vec<char>)
    requires
        w >= 1,
    ensures
        final(out)@ == old(out)@ + padded_decimal(n as int, w as int),
{
    let m = magnitude(n);
    let digits = decimal_u64(m);
    if n < 0 {
        out.push('-');
        push_zero_padded(&digits, w - 1, out);
    } else {
        push_zero_padded(&digits, w, out);
    }
}

/// `c` is an ASCII digit.
pub open spec fn is_digit(c: char) -> bool {
    '0' <= c && c <= '9'
}

/// The value of a string of ASCII digits.
pub open spec fn digits_value(s: Seq<char>) -> nat
    decreases s.len(),
{
    if s.len() == 0 {
        0
    } else {
        digits_value(s.drop_last()) * 10 + ((s.last() as int - 48) as nat)
    }
}

/// `s` is a nonempty string of ASCII digits.
pub open spec fn is_numeral(s: Seq<char>) -> bool {
    s.len() > 0 && forall|i: int| 0 <= i < s.len() ==> is_digit(#[trigger] s[i])
}

/// What `str::parse` reads from `s` for an unsigned integer type, before the
/// range check: an optional `'+'` and then at least one ASCII digit.
pub open spec fn parse_unsigned(s: Seq<char>) -> Option<nat> {
    let rest = if s.len() > 0 && s[0] == '+' {
        s.drop_first()
    } else {
        s
    };
    if is_numeral(rest) {
        Some(digits_value(rest))
    } else {
        None
    }
}

/// What `str::parse` reads from `s` for a signed integer type, before the
/// range check: an optional `'+'` or `'-'` and then at least one ASCII digit.
pub open spec fn parse_signed(s: Seq<char>) -> Option<int> {
    if s.len() > 0 && s[0] == '-' {
        if is_numeral(s.drop_first()) {
            Some(-(digits_value(s.drop_first()) as int))
        } else {
            None
        }
    } else {
        match parse_unsigned(s) {
            Some(v) => Some(v as int),
            None => None,
        }
    }
}

proof fn lemma_digits_value_prefix(s: Seq<char>, i: int)
    requires
        0 <= i <= s.len(),
        forall|k: int| 0 <= k < s.len() ==> is_digit(#[trigger] s[k]),
    ensures
        digits_value(s.take(i)) <= digits_value(s),
    decreases s.len() - i,
{
    if i < s.len() {
        let t = s.drop_last();
        assert(forall|k: int| 0 <= k < t.len() ==> is_digit(#[trigger] t[k]) ) by {
            assert forall|k: int| 0 <= k < t.len() implies is_digit(#[trigger] t[k]) by {
                assert(t[k] == s[k]);
            }
        }
        lemma_digits_value_prefix(t, i);
        assert(t.take(i) == s.take(i));
    } else {
        assert(s.take(i) == s);
    }
}

/// Reads the digits of `s` from `start` on: `Some` of their value when they
/// are a nonempty run of ASCII digits worth at most `limit`.
#[verifier::rlimit(40)]
fn read_digits(s: &Vec<char>, start: usize, limit: u64) -> (r: Option<u64>)
    requires
        start <= s.len(),
    ensures
        r is Some <==> (is_numeral(s@.skip(start as int)) && digits_value(s@.skip(start as int))
            <= limit),
        r matches Some(v) ==> v == digits_value(s@.skip(start as int)),
{
    if start == s.len() {
        return None;
    }
    let ghost t = s@.skip(start as int);
    let mut acc: u64 = 0;
    let mut k: usize = start;
    while k < s.len()
        invariant
            start <= k <= s.len(),
            t == s@.skip(start as int),
            forall|j: int| 0 <= j < k - start ==> is_digit(#[trigger] t[j]),
            acc as int == digits_value(t.take(k - start)),
            acc <= limit,
        decreases s.len() - k,
    {
        let c = s[k];
        if !(c >= '0' && c <= '9') {
            assert(!is_digit(t[k - start]));
            return None;
        }
        let d: u64 = (c as u32 - 48) as u64;
        assert(t.take(k + 1 - start).drop_last() == t.take(k - start));
        if d > limit || acc > (limit - d) / 10 {
            proof {
                assert(acc * 10 + d > limit) by (nonlinear_arith)
                    requires
                        d > limit || acc > (limit - d) / 10,
                        0 <= d < 10,
                        acc >= 0,
                ;
                if is_numeral(t) {
                    lemma_digits_value_prefix(t, k + 1 - start);
                }
            }
            return None;
        }
        proof {
            assert(acc * 10 + d <= limit) by (nonlinear_arith)
                requires
                    acc <= (limit - d) / 10,
                    0 <= d < 10,
            ;
        }
        acc = acc * 10 + d;
        k = k + 1;
    }
    assert(t.take(k - start) == t);
    Some(acc)
}

} // verus!

verus! {

/// Reads an unsigned numeral (`str::parse` for an unsigned type) no greater
/// than `limit`.
pub fn parse_unsigned_upto(s: &Vec<char>, limit: u64) -> (r: Option<u64>)
    ensures
        r is Some <==> (parse_unsigned(s@) matches Some(v) && v <= limit),
        r matches Some(v) ==> parse_unsigned(s@) == Some(v as nat),
{
    if s.len() > 0 && s[0] == '+' {
        assert(s@.skip(1) == s@.drop_first());
        read_digits(s, 1, limit)
    } else {
        assert(s@.skip(0) == s@);
        read_digits(s, 0, limit)
    }
}

/// `str::parse::<i64>`.
pub fn parse_i64(s: &Vec<char>) -> (r: Option<i64>)
    ensures
        r is Some <==> (parse_signed(s@) matches Some(v) && i64::MIN <= v <= i64::MAX),
        r matches Some(v) ==> parse_signed(s@) == Some(v as int),
{
    if s.len() > 0 && s[0] == '-' {
        assert(s@.skip(1) == s@.drop_first());
        match read_digits(s, 1, 9223372036854775808u64) {
            Some(m) => {
                if m == 9223372036854775808u64 {
                    Some(i64::MIN)
                } else {
                    let v: i64 = m as i64;
                    Some(-v)
                }
            },
            None => None,
        }
    } else {
        match parse_unsigned_upto(s, 9223372036854775807u64) {
            Some(m) => Some(m as i64),
            None => None,
        }
    }
}

} // verus!

verus! {

/// The digits of `n` are a numeral worth `n`.
pub proof fn lemma_decimal_value(n: nat)
    ensures
        is_numeral(decimal(n)),
        digits_value(decimal(n)) == n,
    decreases n,
{
    lemma_decimal_len(n);
    if n >= 10 {
        lemma_decimal_value(n / 10);
        let s = decimal(n / 10);
        let c = digit_char((n % 10) as int);
        assert(c as int == (n % 10) + 48);
        assert(decimal(n).drop_last() == s);
        assert(decimal(n).last() == c);
        assert(digits_value(decimal(n)) == digits_value(s) * 10 + (n % 10));
        assert((n / 10) * 10 + n % 10 == n) by (nonlinear_arith);
        assert forall|i: int| 0 <= i < decimal(n).len() implies is_digit(#[trigger] decimal(n)[i]) by {
            if i < s.len() {
                assert(decimal(n)[i] == s[i]);
            }
        }
    } else {
        assert(decimal(n).drop_last() == Seq::<char>::empty());
        assert(digit_char(n as int) as int == n + 48);
        assert(digits_value(Seq::<char>::empty()) == 0);
        assert(decimal(n).last() == digit_char(n as int));
        assert(digits_value(decimal(n)) == digits_value(decimal(n).drop_last()) * 10 + ((decimal(n).last() as int - 48) as nat));
    }
}

} // verus!
