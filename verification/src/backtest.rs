//! The backtest's bookkeeping: the UTC timestamps it asks for, the pages of
//! history it fetches, the 5-minute windows it scores and the tally of each
//! signal's calls.

use vstd::prelude::*;
use crate::decimal::{decimal, digit_char, padded_decimal, push_padded_i64, zero_pad};
use crate::text::{from_chars, push_str_chars, to_chars};

verus! {

/// `a / b` as Rust computes it on integers: rounded toward zero.
pub open spec fn trunc_div(a: int, b: int) -> int {
    if a >= 0 {
        a / b
    } else {
        -((-a) / b)
    }
}

/// `a % b` as Rust computes it on integers: the sign of `a`.
pub open spec fn trunc_rem(a: int, b: int) -> int {
    a - b * trunc_div(a, b)
}

/// Gregorian leap year.
pub open spec fn is_leap(y: int) -> bool {
    (y % 4 == 0 && y % 100 != 0) || y % 400 == 0
}

pub open spec fn year_len(y: int) -> int {
    if is_leap(y) {
        366
    } else {
        365
    }
}

/// Days from 1970-01-01 to the first day of year `y` (for `y >= 1970`).
pub open spec fn days_before_year(y: int) -> int
    decreases y - 1970,
{
    if y <= 1970 {
        0
    } else {
        days_before_year(y - 1) + year_len(y - 1)
    }
}

/// Length of month `m` (0 = January) of year `y`.
pub open spec fn month_len(y: int, m: int) -> int {
    if m == 1 {
        if is_leap(y) {
            29
        } else {
            28
        }
    } else if m == 3 || m == 5 || m == 8 || m == 10 {
        30
    } else {
        31
    }
}

/// Days from the first day of year `y` to the first day of month `m` (0 = January).
pub open spec fn days_before_month(y: int, m: int) -> int
    decreases m,
{
    if m <= 0 {
        0
    } else {
        days_before_month(y, m - 1) + month_len(y, m - 1)
    }
}

/// The year in which day `days` (counted from 1970-01-01) falls.
pub open spec fn year_of(days: int) -> int {
    choose|y: int| y >= 1970 && #[trigger] days_before_year(y) <= days < days_before_year(y + 1)
}

/// The month (0 = January) of year `y` in which day `doy` of the year falls.
pub open spec fn month_of(y: int, doy: int) -> int {
    choose|m: int| 0 <= m < 12 && #[trigger] days_before_month(y, m) <= doy < days_before_month(y, m + 1)
}

/// Year, month, day, hour, minute, second that the timestamp formatter prints
/// for `ts` seconds after the epoch. Seconds are split into days and the rest
/// with Rust's division; a negative day count is left in the day field of
/// January 1970, as the formatter does.
pub open spec fn iso_fields(ts: int) -> (int, int, int, int, int, int) {
    let days = trunc_div(ts, 86400);
    let rem = trunc_rem(ts, 86400);
    let h = trunc_div(rem, 3600);
    let mi = trunc_div(trunc_rem(rem, 3600), 60);
    let s = trunc_rem(rem, 60);
    if days < 0 {
        (1970, 1, days + 1, h, mi, s)
    } else {
        let y = year_of(days);
        let doy = days - days_before_year(y);
        let m = month_of(y, doy);
        (y, m + 1, doy - days_before_month(y, m) + 1, h, mi, s)
    }
}

/// `YYYY-MM-DDThh:mm:ssZ`, each field zero-padded as `{:04}` / `{:02}` pad.
pub open spec fn iso_spec(ts: int) -> Seq<char> {
    let f = iso_fields(ts);
    padded_decimal(f.0, 4) + seq!['-'] + padded_decimal(f.1, 2) + seq!['-'] + padded_decimal(f.2, 2)
        + seq!['T'] + padded_decimal(f.3, 2) + seq![':'] + padded_decimal(f.4, 2) + seq![':']
        + padded_decimal(f.5, 2) + seq!['Z']
}

proof fn lemma_days_before_year_mono(a: int, b: int)
    requires
        1970 <= a <= b,
    ensures
        days_before_year(b) - days_before_year(a) >= 365 * (b - a),
    decreases b - a,
{
    if a < b {
        lemma_days_before_year_mono(a, b - 1);
    }
}

proof fn lemma_year_unique(days: int, y: int)
    requires
        y >= 1970,
        days_before_year(y) <= days < days_before_year(y + 1),
    ensures
        year_of(days) == y,
{
    let z = year_of(days);
    assert(z >= 1970 && days_before_year(z) <= days < days_before_year(z + 1));
    if z < y {
        lemma_days_before_year_mono(z + 1, y);
    } else if z > y {
        lemma_days_before_year_mono(y + 1, z);
    }
}

proof fn lemma_months(y: int)
    ensures
        days_before_month(y, 12) == year_len(y),
        forall|m: int| 0 <= m < 12 ==> #[trigger] days_before_month(y, m + 1) == days_before_month(y, m)
            + month_len(y, m),
{
    reveal_with_fuel(days_before_month, 13);
}

proof fn lemma_month_mono(y: int, a: int, b: int)
    requires
        0 <= a <= b,
    ensures
        days_before_month(y, b) - days_before_month(y, a) >= 28 * (b - a),
    decreases b - a,
{
    if a < b {
        lemma_month_mono(y, a, b - 1);
    }
}

proof fn lemma_month_unique(y: int, doy: int, m: int)
    requires
        0 <= m < 12,
        days_before_month(y, m) <= doy < days_before_month(y, m + 1),
    ensures
        month_of(y, doy) == m,
{
    let z = month_of(y, doy);
    assert(0 <= z < 12 && days_before_month(y, z) <= doy < days_before_month(y, z + 1));
    if z < m {
        lemma_month_mono(y, z + 1, m);
    } else if z > m {
        lemma_month_mono(y, m + 1, z);
    }
}

fn leap(y: i64) -> (b: bool)
    requires
        y >= 1970,
    ensures
        b == is_leap(y as int),
{
    (y % 4 == 0 && y % 100 != 0) || (y % 400 == 0)
}

/// `ts` seconds after the epoch as a UTC ISO 8601 timestamp,
/// `YYYY-MM-DDThh:mm:ssZ`, as the history requests carry it.
#[verifier::rlimit(40)]
pub fn iso(ts: i64) -> (r: String)
    ensures
        r@ == iso_spec(ts as int),
{
    let days: i64 = ts / 86400;
    let rem: i64 = ts % 86400;
    let h: i64 = rem / 3600;
    let m: i64 = (rem % 3600) / 60;
    let s: i64 = rem % 60;
    assert(days == trunc_div(ts as int, 86400));
    assert(rem == trunc_rem(ts as int, 86400));
    assert(h == trunc_div(rem as int, 3600));
    assert(m == trunc_div(trunc_rem(rem as int, 3600), 60));
    assert(s == trunc_rem(rem as int, 60));
    let mut y: i64 = 1970;
    let mut d: i64 = days;
    let mut mo: usize = 0;
    if days >= 0 {
        loop
            invariant_except_break
                y >= 1970,
                d >= 0,
                d == days - days_before_year(y as int),
                days <= i64::MAX / 86400,
            ensures
                y >= 1970,
                0 <= d < year_len(y as int),
                d == days - days_before_year(y as int),
            decreases d,
        {
            proof {
                lemma_days_before_year_mono(1970, y as int);
                assert(365 * (y - 1970) <= days);
            }
            let yd: i64 = if leap(y) {
                366
            } else {
                365
            };
            if d < yd {
                break;
            }
            d = d - yd;
            y = y + 1;
        }
        proof {
            lemma_year_unique(days as int, y as int);
            lemma_months(y as int);
        }
        let is_l = leap(y);
        let feb: i64 = if is_l {
            29
        } else {
            28
        };
        let mdays: [i64; 12] = [31, feb, 31, 30, 31, 30, 31, 31, 30, 31, 30, 31];
        assert(forall|k: int| 0 <= k < 12 ==> mdays@[k] == month_len(y as int, k));
        let ghost doy = d as int;
        while d >= mdays[mo]
            invariant
                mo < 12,
                0 <= d,
                d == doy - days_before_month(y as int, mo as int),
                doy < days_before_month(y as int, 12),
                forall|k: int| 0 <= k < 12 ==> mdays@[k] == month_len(y as int, k),
                forall|k: int| 0 <= k < 12 ==> #[trigger] days_before_month(y as int, k + 1)
                    == days_before_month(y as int, k) + month_len(y as int, k),
            decreases 12 - mo,
        {
            assert(mdays@[mo as int] == month_len(y as int, mo as int));
            d = d - mdays[mo];
            mo = mo + 1;
            proof {
                if mo == 12 {
                    assert(false);
                }
            }
        }
        proof {
            lemma_month_unique(y as int, doy, mo as int);
        }
    }
    let mut out: Vec<char> = Vec::new();
    push_padded_i64(y, 4, &mut out);
    out.push('-');
    push_padded_i64(mo as i64 + 1, 2, &mut out);
    out.push('-');
    push_padded_i64(d + 1, 2, &mut out);
    out.push('T');
    push_padded_i64(h, 2, &mut out);
    out.push(':');
    push_padded_i64(m, 2, &mut out);
    out.push(':');
    push_padded_i64(s, 2, &mut out);
    out.push('Z');
    from_chars(out.as_slice())
}

/// The number that the `n` characters of `s` from index `i` spell as ASCII
/// decimal digits.
pub open spec fn digits_at(s: Seq<char>, i: int, n: nat) -> int
    decreases n,
{
    if n == 0 {
        0
    } else {
        digits_at(s, i, (n - 1) as nat) * 10 + (s[i + n - 1] as int - 48)
    }
}

/// The `n` characters of `s` from index `i` are ASCII digits.
pub open spec fn all_digits_at(s: Seq<char>, i: int, n: int) -> bool {
    forall|j: int| i <= j < i + n ==> '0' <= #[trigger] s[j] <= '9'
}

proof fn lemma_pad2(n: int)
    requires
        0 <= n < 100,
    ensures
        padded_decimal(n, 2) == seq![digit_char(n / 10), digit_char(n % 10)],
{
    reveal_with_fuel(decimal, 2);
    if n < 10 {
        assert(padded_decimal(n, 2) =~= seq![digit_char(n / 10), digit_char(n % 10)]);
    } else {
        assert(decimal((n / 10) as nat) == seq![digit_char(n / 10)]);
        assert(padded_decimal(n, 2) =~= seq![digit_char(n / 10), digit_char(n % 10)]);
    }
}

proof fn lemma_pad4(n: int)
    requires
        0 <= n < 10000,
    ensures
        padded_decimal(n, 4) == seq![
            digit_char(n / 1000),
            digit_char((n / 100) % 10),
            digit_char((n / 10) % 10),
            digit_char(n % 10),
        ],
{
    reveal_with_fuel(decimal, 4);
    let want = seq![
        digit_char(n / 1000),
        digit_char((n / 100) % 10),
        digit_char((n / 10) % 10),
        digit_char(n % 10),
    ];
    if n < 10 {
        assert(padded_decimal(n, 4) =~= want);
    } else if n < 100 {
        assert(decimal((n / 10) as nat) == seq![digit_char(n / 10)]);
        assert(padded_decimal(n, 4) =~= want);
    } else if n < 1000 {
        assert(decimal((n / 100) as nat) == seq![digit_char(n / 100)]);
        assert((n / 10) / 10 == n / 100);
        assert(decimal((n / 10) as nat) == seq![digit_char(n / 100), digit_char((n / 10) % 10)]);
        assert(padded_decimal(n, 4) =~= want);
    } else {
        assert((n / 10) / 10 == n / 100);
        assert((n / 100) / 10 == n / 1000);
        assert(decimal((n / 1000) as nat) == seq![digit_char(n / 1000)]);
        assert(decimal((n / 100) as nat) == seq![digit_char(n / 1000), digit_char((n / 100) % 10)]);
        assert(decimal((n / 10) as nat) == seq![
            digit_char(n / 1000),
            digit_char((n / 100) % 10),
            digit_char((n / 10) % 10),
        ]);
        assert(padded_decimal(n, 4) =~= want);
    }
}

proof fn lemma_two_digits(s: Seq<char>, i: int, n: int)
    requires
        0 <= n < 100,
        0 <= i,
        i + 2 <= s.len(),
        s[i] == digit_char(n / 10),
        s[i + 1] == digit_char(n % 10),
    ensures
        all_digits_at(s, i, 2),
        digits_at(s, i, 2) == n,
{
    reveal_with_fuel(digits_at, 3);
    assert(s[i] as int == n / 10 + 48);
    assert(s[i + 1] as int == n % 10 + 48);
}

proof fn lemma_four_digits(s: Seq<char>, n: int)
    requires
        0 <= n < 10000,
        4 <= s.len(),
        s[0] == digit_char(n / 1000),
        s[1] == digit_char((n / 100) % 10),
        s[2] == digit_char((n / 10) % 10),
        s[3] == digit_char(n % 10),
    ensures
        all_digits_at(s, 0, 4),
        digits_at(s, 0, 4) == n,
{
    reveal_with_fuel(digits_at, 5);
    assert(s[0] as int == n / 1000 + 48);
    assert(s[1] as int == (n / 100) % 10 + 48);
    assert(s[2] as int == (n / 10) % 10 + 48);
    assert(s[3] as int == n % 10 + 48);
    assert(((n / 1000) * 10 + (n / 100) % 10) * 100 + ((n / 10) % 10) * 10 + n % 10 == n);
}

/// The printed layout of six fields in range.
#[verifier::rlimit(40)]
proof fn lemma_layout_of(f: (int, int, int, int, int, int))
    requires
        0 <= f.0 < 10000,
        0 <= f.1 < 100 && 0 <= f.2 < 100 && 0 <= f.3 < 100 && 0 <= f.4 < 100 && 0 <= f.5 < 100,
    ensures
        ({
            let s = padded_decimal(f.0, 4) + seq!['-'] + padded_decimal(f.1, 2) + seq!['-']
                + padded_decimal(f.2, 2) + seq!['T'] + padded_decimal(f.3, 2) + seq![':']
                + padded_decimal(f.4, 2) + seq![':'] + padded_decimal(f.5, 2) + seq!['Z'];
            &&& s.len() == 20
            &&& s[4] == '-' && s[7] == '-' && s[10] == 'T' && s[13] == ':' && s[16] == ':' && s[19] == 'Z'
            &&& all_digits_at(s, 0, 4) && all_digits_at(s, 5, 2) && all_digits_at(s, 8, 2)
            &&& all_digits_at(s, 11, 2) && all_digits_at(s, 14, 2) && all_digits_at(s, 17, 2)
            &&& digits_at(s, 0, 4) == f.0 && digits_at(s, 5, 2) == f.1 && digits_at(s, 8, 2) == f.2
            &&& digits_at(s, 11, 2) == f.3 && digits_at(s, 14, 2) == f.4 && digits_at(s, 17, 2) == f.5
        }),
{
    lemma_pad4(f.0);
    lemma_pad2(f.1);
    lemma_pad2(f.2);
    lemma_pad2(f.3);
    lemma_pad2(f.4);
    lemma_pad2(f.5);
    let s = padded_decimal(f.0, 4) + seq!['-'] + padded_decimal(f.1, 2) + seq!['-']
        + padded_decimal(f.2, 2) + seq!['T'] + padded_decimal(f.3, 2) + seq![':']
        + padded_decimal(f.4, 2) + seq![':'] + padded_decimal(f.5, 2) + seq!['Z'];
    let want = seq![
        digit_char(f.0 / 1000),
        digit_char((f.0 / 100) % 10),
        digit_char((f.0 / 10) % 10),
        digit_char(f.0 % 10),
        '-',
        digit_char(f.1 / 10),
        digit_char(f.1 % 10),
        '-',
        digit_char(f.2 / 10),
        digit_char(f.2 % 10),
        'T',
        digit_char(f.3 / 10),
        digit_char(f.3 % 10),
        ':',
        digit_char(f.4 / 10),
        digit_char(f.4 % 10),
        ':',
        digit_char(f.5 / 10),
        digit_char(f.5 % 10),
        'Z',
    ];
    assert(s =~= want);
    lemma_four_digits(s, f.0);
    lemma_two_digits(s, 5, f.1);
    lemma_two_digits(s, 8, f.2);
    lemma_two_digits(s, 11, f.3);
    lemma_two_digits(s, 14, f.4);
    lemma_two_digits(s, 17, f.5);
}

/// Law: a timestamp from the epoch up to the end of the year 9999 prints as
/// the 20 characters `YYYY-MM-DDThh:mm:ssZ`: the separators at their places,
/// and year, month, day, hour, minute and second each spelled in decimal
/// digits at theirs.
pub proof fn lemma_iso_layout(ts: int)
    requires
        ts >= 0,
        iso_fields(ts).0 < 10000,
    ensures
        iso_spec(ts).len() == 20,
        iso_spec(ts)[4] == '-' && iso_spec(ts)[7] == '-' && iso_spec(ts)[10] == 'T',
        iso_spec(ts)[13] == ':' && iso_spec(ts)[16] == ':' && iso_spec(ts)[19] == 'Z',
        all_digits_at(iso_spec(ts), 0, 4) && all_digits_at(iso_spec(ts), 5, 2) && all_digits_at(
            iso_spec(ts),
            8,
            2,
        ),
        all_digits_at(iso_spec(ts), 11, 2) && all_digits_at(iso_spec(ts), 14, 2) && all_digits_at(
            iso_spec(ts),
            17,
            2,
        ),
        digits_at(iso_spec(ts), 0, 4) == iso_fields(ts).0,
        digits_at(iso_spec(ts), 5, 2) == iso_fields(ts).1,
        digits_at(iso_spec(ts), 8, 2) == iso_fields(ts).2,
        digits_at(iso_spec(ts), 11, 2) == iso_fields(ts).3,
        digits_at(iso_spec(ts), 14, 2) == iso_fields(ts).4,
        digits_at(iso_spec(ts), 17, 2) == iso_fields(ts).5,
{
    lemma_iso_ranges(ts);
    lemma_layout_of(iso_fields(ts));
}

proof fn lemma_month_days_at_most_31(y: int, m: int)
    requires
        1 <= m <= 12,
    ensures
        gregorian_days_in_month(y, m) <= 31,
{
}

proof fn lemma_iso_ranges(ts: int)
    requires
        ts >= 0,
    ensures
        iso_fields(ts).0 >= 1970,
        0 <= iso_fields(ts).1 < 100 && 0 <= iso_fields(ts).2 < 100 && 0 <= iso_fields(ts).3 < 100,
        0 <= iso_fields(ts).4 < 100 && 0 <= iso_fields(ts).5 < 100,
{
    lemma_iso_calendar(ts);
    let days = ts / 86400;
    assert(trunc_div(ts, 86400) == days);
    let (y, m) = lemma_date_of(days);
    lemma_month_days_at_most_31(iso_fields(ts).0, iso_fields(ts).1);
}

/// Days in month `m` (1 = January, ..., 12 = December) of year `y` on the
/// Gregorian calendar: a year divisible by 4 is a leap year, except a century
/// year not divisible by 400.
pub open spec fn gregorian_days_in_month(y: int, m: int) -> int {
    let leap = y % 4 == 0 && (y % 100 != 0 || y % 400 == 0);
    let feb: int = if leap {
        29
    } else {
        28
    };
    seq![31int, feb, 31, 30, 31, 30, 31, 31, 30, 31, 30, 31][m - 1]
}

/// The calendar day after day `d` of month `m` (1-based) of year `y`.
pub open spec fn next_day(y: int, m: int, d: int) -> (int, int, int) {
    if d < gregorian_days_in_month(y, m) {
        (y, m, d + 1)
    } else if m < 12 {
        (y, m + 1, 1)
    } else {
        (y + 1, 1, 1)
    }
}

proof fn lemma_year_exists(days: int, y: int)
    requires
        y >= 1970,
        days_before_year(y) <= days,
    ensures
        year_of(days) >= 1970,
        days_before_year(year_of(days)) <= days < days_before_year(year_of(days) + 1),
    decreases days - days_before_year(y),
{
    if days < days_before_year(y + 1) {
        lemma_year_unique(days, y);
    } else {
        lemma_year_exists(days, y + 1);
    }
}

proof fn lemma_month_exists(y: int, doy: int, m: int)
    requires
        0 <= m < 12,
        days_before_month(y, m) <= doy < days_before_month(y, 12),
    ensures
        0 <= month_of(y, doy) < 12,
        days_before_month(y, month_of(y, doy)) <= doy < days_before_month(y, month_of(y, doy) + 1),
    decreases 12 - m,
{
    if doy < days_before_month(y, m + 1) {
        lemma_month_unique(y, doy, m);
    } else {
        lemma_month_exists(y, doy, m + 1);
    }
}

proof fn lemma_month_len_gregorian(y: int, m: int)
    requires
        0 <= m < 12,
    ensures
        month_len(y, m) == gregorian_days_in_month(y, m + 1),
{
    if y % 400 == 0 {
        assert(y % 4 == 0);
    }
}

/// The date part of day `days` (counted from 1970-01-01, `days >= 0`), laid
/// out as `iso_fields` gives it.
proof fn lemma_date_of(days: int) -> (r: (int, int))
    requires
        days >= 0,
    ensures
        r.0 == year_of(days),
        r.1 == month_of(r.0, days - days_before_year(r.0)),
        r.0 >= 1970,
        0 <= days - days_before_year(r.0) < year_len(r.0),
        0 <= r.1 < 12,
        days_before_month(r.0, r.1) <= days - days_before_year(r.0) < days_before_month(r.0, r.1 + 1),
{
    lemma_year_exists(days, 1970);
    let y = year_of(days);
    lemma_months(y);
    assert(days_before_year(y + 1) == days_before_year(y) + year_len(y));
    let doy = days - days_before_year(y);
    lemma_month_exists(y, doy, 0);
    (y, month_of(y, doy))
}

/// Law: the timestamp formatter prints the Gregorian calendar. The epoch is
/// 1970-01-01 00:00:00; for every timestamp from the epoch on, the month is
/// 1 to 12, the day lies within that month's length (30 in April, June,
/// September and November; 28 or 29 in February; 31 otherwise), the clock
/// fields are the seconds into the day, and one day (86400 s) later the date
/// is the next calendar day at the same clock time.
pub proof fn lemma_iso_calendar(ts: int)
    requires
        ts >= 0,
    ensures
        iso_fields(0) == (1970int, 1int, 1int, 0int, 0int, 0int),
        1 <= iso_fields(ts).1 <= 12,
        1 <= iso_fields(ts).2 <= gregorian_days_in_month(iso_fields(ts).0, iso_fields(ts).1),
        0 <= iso_fields(ts).3 < 24 && 0 <= iso_fields(ts).4 < 60 && 0 <= iso_fields(ts).5 < 60,
        iso_fields(ts).3 * 3600 + iso_fields(ts).4 * 60 + iso_fields(ts).5 == ts % 86400,
        (iso_fields(ts + 86400).0, iso_fields(ts + 86400).1, iso_fields(ts + 86400).2) == next_day(
            iso_fields(ts).0,
            iso_fields(ts).1,
            iso_fields(ts).2,
        ),
        iso_fields(ts + 86400).3 == iso_fields(ts).3,
        iso_fields(ts + 86400).4 == iso_fields(ts).4,
        iso_fields(ts + 86400).5 == iso_fields(ts).5,
{
    // The epoch.
    reveal_with_fuel(days_before_year, 2);
    reveal_with_fuel(days_before_month, 2);
    lemma_year_unique(0, 1970);
    lemma_month_unique(1970, 0, 0);
    // Clock fields.
    let days = ts / 86400;
    let rem = ts % 86400;
    assert(trunc_div(ts, 86400) == days);
    assert((ts + 86400) / 86400 == days + 1);
    assert((ts + 86400) % 86400 == rem);
    let h = rem / 3600;
    let mi = (rem % 3600) / 60;
    let s = rem % 60;
    assert(rem % 60 == (rem % 3600) % 60) by (nonlinear_arith)
        requires 0 <= rem < 86400;
    assert(h * 3600 + mi * 60 + s == rem) by (nonlinear_arith)
        requires h == rem / 3600, mi == (rem % 3600) / 60, s == (rem % 3600) % 60, 0 <= rem;
    assert(0 <= h < 24) by (nonlinear_arith)
        requires h == rem / 3600, 0 <= rem < 86400;
    // The date.
    let (y, m) = lemma_date_of(days);
    let doy = days - days_before_year(y);
    let d = doy - days_before_month(y, m) + 1;
    lemma_months(y);
    lemma_month_len_gregorian(y, m);
    assert(iso_fields(ts) == (y, m + 1, d, h, mi, s));
    let (y2, m2) = lemma_date_of(days + 1);
    let doy2 = days + 1 - days_before_year(y2);
    let d2 = doy2 - days_before_month(y2, m2) + 1;
    assert(iso_fields(ts + 86400) == (y2, m2 + 1, d2, h, mi, s));
    if doy + 1 < year_len(y) {
        assert(days_before_year(y + 1) == days_before_year(y) + year_len(y));
        lemma_year_unique(days + 1, y);
        if doy + 1 < days_before_month(y, m + 1) {
            lemma_month_unique(y, doy + 1, m);
        } else {
            lemma_month_unique(y, doy + 1, m + 1);
            lemma_month_len_gregorian(y, m + 1);
        }
    } else {
        assert(days_before_year(y + 1) == days_before_year(y) + year_len(y));
        assert(days_before_year(y + 2) == days_before_year(y + 1) + year_len(y + 1));
        lemma_year_unique(days + 1, y + 1);
        lemma_months(y + 1);
        lemma_month_unique(y + 1, 0, 0);
        lemma_month_unique(y, doy, 11);
        lemma_month_len_gregorian(y, 11);
    }
}

} // verus!

verus! {

/// The order in which the candles of the first `n` rows are kept when the
/// rows are sorted by time (stably) and rows of a time already seen are
/// dropped: `r` lists row indices whose times strictly increase, every time
/// of the first `n` rows appears, and each listed row is the first row with
/// its time.
pub open spec fn is_time_order(t: Seq<i64>, r: Seq<usize>, n: int) -> bool {
    &&& forall|k: int| 0 <= k < r.len() ==> #[trigger] r[k] < n
    &&& forall|a: int, b: int| 0 <= a < b < r.len() ==> t[r[a] as int] < t[r[b] as int]
    &&& forall|i: int| 0 <= i < n ==> has_time(t, r, #[trigger] t[i])
    &&& forall|k: int, i: int| 0 <= k < r.len() && 0 <= i < r[k] ==> #[trigger] t[i] != #[trigger] t[r[k] as int]
}

/// Some listed row has time `x`.
pub open spec fn has_time(t: Seq<i64>, r: Seq<usize>, x: i64) -> bool {
    exists|k: int| 0 <= k < r.len() && #[trigger] t[r[k] as int] == x
}

/// First position in `order` whose row's time is at least `x`.
fn lower_bound(t: &Vec<i64>, order: &Vec<usize>, x: i64) -> (p: usize)
    requires
        forall|k: int| 0 <= k < order.len() ==> #[trigger] order@[k] < t.len(),
        forall|a: int, b: int| 0 <= a < b < order.len() ==> t@[order@[a] as int] < t@[order@[b] as int],
    ensures
        p <= order.len(),
        forall|k: int| 0 <= k < p ==> t@[#[trigger] order@[k] as int] < x,
        forall|k: int| p <= k < order.len() ==> t@[#[trigger] order@[k] as int] >= x,
{
    let mut lo: usize = 0;
    let mut hi: usize = order.len();
    while lo < hi
        invariant
            lo <= hi <= order.len(),
            forall|k: int| 0 <= k < order.len() ==> #[trigger] order@[k] < t.len(),
            forall|a: int, b: int| 0 <= a < b < order.len() ==> t@[order@[a] as int] < t@[order@[b] as int],
            forall|k: int| 0 <= k < lo ==> t@[#[trigger] order@[k] as int] < x,
            forall|k: int| hi <= k < order.len() ==> t@[#[trigger] order@[k] as int] >= x,
        decreases hi - lo,
    {
        let mid = lo + (hi - lo) / 2;
        if t[order[mid]] < x {
            lo = mid + 1;
        } else {
            hi = mid;
        }
    }
    lo
}

proof fn lemma_order_skip(t: Seq<i64>, order: Seq<usize>, i: int, p: int)
    requires
        0 <= i < t.len(),
        is_time_order(t, order, i),
        0 <= p < order.len(),
        t[order[p] as int] == t[i],
    ensures
        is_time_order(t, order, i + 1),
{
    assert forall|j: int| 0 <= j < i + 1 implies has_time(t, order, #[trigger] t[j]) by {
        if j == i {
            assert(t[order[p] as int] == t[j]);
        }
    }
}

#[verifier::rlimit(40)]
proof fn lemma_order_insert(t: Seq<i64>, old_order: Seq<usize>, i: int, p: int)
    requires
        0 <= i < t.len(),
        i <= usize::MAX,
        is_time_order(t, old_order, i),
        0 <= p <= old_order.len(),
        forall|k: int| 0 <= k < p ==> t[#[trigger] old_order[k] as int] < t[i],
        forall|k: int| p <= k < old_order.len() ==> t[#[trigger] old_order[k] as int] >= t[i],
        p < old_order.len() ==> t[old_order[p] as int] != t[i],
    ensures
        is_time_order(t, old_order.insert(p, i as usize), i + 1),
{
    let x = t[i];
    assert forall|j: int| 0 <= j < i implies #[trigger] t[j] != x by {
        assert(has_time(t, old_order, t[j]));
        let k = choose|k: int| 0 <= k < old_order.len() && #[trigger] t[old_order[k] as int] == t[j];
        if t[j] == x {
            if k < p {
                assert(t[old_order[k] as int] < x);
            } else if k > p {
                assert(t[old_order[p] as int] < t[old_order[k] as int]);
            }
        }
    }
    old_order.insert_ensures(p, i as usize);
    let o = old_order.insert(p, i as usize);
    assert forall|k: int| 0 <= k < o.len() implies #[trigger] o[k] < i + 1 by {
        if k < p {
            assert(o[k] == old_order[k]);
        } else if k > p {
            assert(o[k] == old_order[k - 1]);
        }
    }
    assert forall|a: int, b: int| 0 <= a < b < o.len() implies t[o[a] as int] < t[o[b] as int] by {
        if a < p {
            assert(o[a] == old_order[a]);
        } else if a > p {
            assert(o[a] == old_order[a - 1]);
        }
        if b < p {
            assert(o[b] == old_order[b]);
        } else if b > p {
            assert(o[b] == old_order[b - 1]);
        }
        if a == p {
            assert(t[old_order[b - 1] as int] >= x);
        }
        if b == p {
            assert(t[old_order[a] as int] < x);
        }
    }
    assert forall|j: int| 0 <= j < i + 1 implies has_time(t, o, #[trigger] t[j]) by {
        if j == i {
            assert(o[p] == i);
            assert(t[o[p] as int] == t[j]);
        } else {
            assert(has_time(t, old_order, t[j]));
            let k = choose|k: int| 0 <= k < old_order.len() && #[trigger] t[old_order[k] as int] == t[j];
            if k < p {
                assert(o[k] == old_order[k]);
                assert(t[o[k] as int] == t[j]);
            } else {
                assert(o[k + 1] == old_order[k]);
                assert(t[o[k + 1] as int] == t[j]);
            }
        }
    }
    assert forall|k: int, j: int| 0 <= k < o.len() && 0 <= j < o[k] implies #[trigger] t[j]
        != #[trigger] t[o[k] as int] by {
        if k < p {
            assert(o[k] == old_order[k]);
        } else if k > p {
            assert(o[k] == old_order[k - 1]);
        } else {
            assert(o[k] == i);
        }
    }
}

/// The rows kept, in time order, when rows are sorted by time and repeated
/// times dropped (the first row of each time stays).
pub fn time_order(t: &Vec<i64>) -> (r: Vec<usize>)
    ensures
        is_time_order(t@, r@, t.len() as int),
{
    let mut order: Vec<usize> = Vec::new();
    let mut i: usize = 0;
    while i < t.len()
        invariant
            i <= t.len(),
            is_time_order(t@, order@, i as int),
        decreases t.len() - i,
    {
        let x = t[i];
        let p = lower_bound(t, &order, x);
        if p < order.len() && t[order[p]] == x {
            proof {
                lemma_order_skip(t@, order@, i as int, p as int);
            }
        } else {
            proof {
                lemma_order_insert(t@, order@, i as int, p as int);
            }
            order.insert(p, i);
        }
        i = i + 1;
    }
    order
}

} // verus!

verus! {

/// The direction of a 5-minute window: up or down.
#[derive(PartialEq, Eq, Structural, Clone, Copy)]
pub enum Dir {
    Up,
    Down,
}

/// A call in the other direction (how the reversal signal turns the momentum
/// signal's call around); no call stays no call.
pub open spec fn reversed_spec(d: Option<Dir>) -> Option<Dir> {
    match d {
        Some(Dir::Up) => Some(Dir::Down),
        Some(Dir::Down) => Some(Dir::Up),
        None => None,
    }
}

/// The opposite call.
pub fn reversed(d: Option<Dir>) -> (r: Option<Dir>)
    ensures
        r == reversed_spec(d),
{
    match d {
        Some(Dir::Up) => Some(Dir::Down),
        Some(Dir::Down) => Some(Dir::Up),
        None => None,
    }
}

/// Law: reversing a call twice gives the call back.
pub proof fn lemma_reversed_involution(d: Option<Dir>)
    ensures
        reversed_spec(reversed_spec(d)) == d,
{
}

/// One signal's record: how many windows it called and how many calls were
/// right.
pub struct SignalResult {
    pub name: String,
    pub trades: usize,
    pub correct: usize,
}

impl SignalResult {
    /// A signal that has made no call yet.
    pub fn new(name: &str) -> (r: SignalResult)
        ensures
            r.name@ == name@,
            r.trades == 0,
            r.correct == 0,
            r.wf(),
    {
        SignalResult { name: String::from_str(name), trades: 0, correct: 0 }
    }

    /// No more right calls than calls.
    pub open spec fn wf(&self) -> bool {
        self.correct <= self.trades
    }

    /// Records the signal's call `pred` for a window that went `truth`: a call
    /// counts as a trade, and as a correct one when it matches.
    pub fn record(&mut self, pred: Option<Dir>, truth: Dir)
        requires
            old(self).wf(),
            old(self).trades < usize::MAX,
        ensures
            final(self).name == old(self).name,
            final(self).trades == old(self).trades + if pred is Some {
                1int
            } else {
                0int
            },
            final(self).correct == old(self).correct + if pred == Some(truth) {
                1int
            } else {
                0int
            },
            final(self).wf(),
    {
        if let Some(p) = pred {
            self.trades = self.trades + 1;
            if p == truth {
                self.correct = self.correct + 1;
            }
        }
    }
}

/// Two signals that call each other's reverse: as many calls each, and their
/// right calls add up to that number.
pub open spec fn paired(a: SignalResult, b: SignalResult) -> bool {
    a.trades == b.trades && a.correct + b.correct == a.trades
}

/// The running totals of a backtest: windows scored, windows that went up,
/// and each signal's record.
pub struct Tally {
    pub windows: usize,
    pub up_windows: usize,
    pub results: Vec<SignalResult>,
}

impl Tally {
    /// Every count is within the number of windows scored, and no signal has
    /// more right calls than calls.
    pub open spec fn wf(&self) -> bool {
        &&& self.up_windows <= self.windows
        &&& forall|k: int|
            0 <= k < self.results@.len() ==> (#[trigger] self.results@[k]).wf()
                && self.results@[k].trades <= self.windows
    }

    /// A tally for the signals `names`, with nothing scored.
    pub fn new(names: &Vec<String>) -> (r: Tally)
        ensures
            r.windows == 0,
            r.up_windows == 0,
            r.results@.len() == names@.len(),
            forall|k: int|
                0 <= k < names@.len() ==> #[trigger] r.results@[k].name@ == names@[k]@
                    && r.results@[k].trades == 0 && r.results@[k].correct == 0,
            r.wf(),
    {
        let mut results: Vec<SignalResult> = Vec::new();
        let mut i: usize = 0;
        while i < names.len()
            invariant
                i <= names.len(),
                results@.len() == i,
                forall|k: int|
                    0 <= k < i ==> #[trigger] results@[k].name@ == names@[k]@ && results@[k].trades
                        == 0 && results@[k].correct == 0,
            decreases names.len() - i,
        {
            results.push(SignalResult::new(names[i].as_str()));
            i = i + 1;
        }
        let r = Tally { windows: 0, up_windows: 0, results };
        assert forall|k: int| 0 <= k < r.results@.len() implies (#[trigger] r.results@[k]).wf()
            && r.results@[k].trades <= r.windows by {
            assert(r.results@[k].name@ == names@[k]@);
        }
        r
    }

    /// Scores one window that went `truth`, given each signal's call in
    /// signal order.
    #[verifier::rlimit(40)]
    pub fn record_window(&mut self, truth: Dir, preds: &Vec<Option<Dir>>)
        requires
            old(self).wf(),
            preds@.len() == old(self).results@.len(),
            old(self).windows < usize::MAX,
        ensures
            final(self).wf(),
            final(self).windows == old(self).windows + 1,
            final(self).up_windows == old(self).up_windows + if truth == Dir::Up {
                1int
            } else {
                0int
            },
            final(self).results@.len() == old(self).results@.len(),
            forall|k: int|
                0 <= k < preds@.len() ==> {
                    &&& (#[trigger] final(self).results@[k]).name == old(self).results@[k].name
                    &&& final(self).results@[k].trades == old(self).results@[k].trades + if preds@[k] is Some {
                        1int
                    } else {
                        0int
                    }
                    &&& final(self).results@[k].correct == old(self).results@[k].correct + if preds@[k]
                        == Some(truth) {
                        1int
                    } else {
                        0int
                    }
                },
            forall|k: int|
                0 <= k < preds@.len() && preds@[k] == Some(Dir::Up) && old(self).results@[k].trades
                    == old(self).windows && old(self).results@[k].correct == old(self).up_windows
                    ==> (#[trigger] final(self).results@[k]).trades == final(self).windows
                    && final(self).results@[k].correct == final(self).up_windows,
            forall|a: int, b: int|
                0 <= a < preds@.len() && 0 <= b < preds@.len() && preds@[a] == reversed_spec(preds@[b])
                    && paired(old(self).results@[a], old(self).results@[b]) ==> paired(
                    #[trigger] final(self).results@[a],
                    #[trigger] final(self).results@[b],
                ),
    {
        let ghost before = self.results@;
        self.windows = self.windows + 1;
        if truth == Dir::Up {
            self.up_windows = self.up_windows + 1;
        }
        let mut k: usize = 0;
        while k < preds.len()
            invariant
                k <= preds@.len(),
                preds@.len() == before.len(),
                self.results@.len() == before.len(),
                self.windows == old(self).windows + 1,
                self.up_windows == old(self).up_windows + if truth == Dir::Up {
                    1int
                } else {
                    0int
                },
                self.up_windows <= self.windows,
                forall|j: int| 0 <= j < before.len() ==> (#[trigger] before[j]).wf() && before[j].trades
                    <= old(self).windows,
                forall|j: int| k <= j < before.len() ==> #[trigger] self.results@[j] == before[j],
                forall|j: int|
                    0 <= j < k ==> {
                        &&& (#[trigger] self.results@[j]).name == before[j].name
                        &&& self.results@[j].trades == before[j].trades + if preds@[j] is Some {
                            1int
                        } else {
                            0int
                        }
                        &&& self.results@[j].correct == before[j].correct + if preds@[j] == Some(
                            truth,
                        ) {
                            1int
                        } else {
                            0int
                        }
                        &&& self.results@[j].wf()
                        &&& self.results@[j].trades <= self.windows
                    },
            decreases preds@.len() - k,
        {
            let mut r = self.results.remove(k);
            r.record(preds[k], truth);
            self.results.insert(k, r);
            proof {
                let ghost cur = self.results@;
                assert forall|j: int| k + 1 <= j < before.len() implies #[trigger] self.results@[j] == before[j] by {
                }
            }
            k = k + 1;
        }
    }
}

} // verus!

verus! {

/// Times that strictly increase.
pub open spec fn strictly_increasing(t: Seq<i64>) -> bool {
    forall|a: int, b: int| 0 <= a < b < t.len() ==> t[a] < t[b]
}

/// The row whose time is `x`, if any.
pub open spec fn index_of(t: Seq<i64>, x: int) -> Option<int> {
    if exists|j: int| 0 <= j < t.len() && #[trigger] t[j] == x {
        Some(choose|j: int| 0 <= j < t.len() && #[trigger] t[j] == x)
    } else {
        None
    }
}

/// The window starting at row `i0`, as `(i0, decision row, settlement row)`:
/// only for a start on a 5-minute boundary whose settlement candle (300 s
/// later) and decision candle (`off` minutes later) both exist, the decision
/// not before the start and the settlement after it.
pub open spec fn window_at(t: Seq<i64>, i0: int, off: int) -> Option<(usize, usize, usize)> {
    let t0 = t[i0] as int;
    if trunc_rem(t0, 300) != 0 {
        None
    } else {
        match (index_of(t, t0 + 300), index_of(t, t0 + off * 60)) {
            (Some(s), Some(e)) => if e < i0 || s <= i0 {
                None
            } else {
                Some((i0 as usize, e as usize, s as usize))
            },
            _ => None,
        }
    }
}

/// The windows starting at rows `i..`, in row order.
pub open spec fn windows_from(t: Seq<i64>, off: int, i: int) -> Seq<(usize, usize, usize)>
    decreases t.len() - i,
{
    if i < 0 || i >= t.len() {
        Seq::empty()
    } else {
        match window_at(t, i, off) {
            Some(w) => seq![w] + windows_from(t, off, i + 1),
            None => windows_from(t, off, i + 1),
        }
    }
}

/// Times and offset for which the window arithmetic stays within `i64`.
pub open spec fn window_times_fit(t: Seq<i64>, off: int) -> bool {
    &&& off * 60 <= i64::MAX
    &&& forall|i: int| 0 <= i < t.len() ==> #[trigger] t[i] + 300 <= i64::MAX && t[i] + off * 60 <= i64::MAX
}

/// The row whose time is `x`, found by bisection.
fn find_time(t: &Vec<i64>, x: i64) -> (r: Option<usize>)
    requires
        strictly_increasing(t@),
    ensures
        match r {
            Some(j) => index_of(t@, x as int) == Some(j as int),
            None => index_of(t@, x as int) is None,
        },
{
    let mut lo: usize = 0;
    let mut hi: usize = t.len();
    while lo < hi
        invariant
            lo <= hi <= t.len(),
            strictly_increasing(t@),
            forall|k: int| 0 <= k < lo ==> #[trigger] t@[k] < x,
            forall|k: int| hi <= k < t.len() ==> #[trigger] t@[k] >= x,
        decreases hi - lo,
    {
        let mid = lo + (hi - lo) / 2;
        if t[mid] < x {
            lo = mid + 1;
        } else {
            hi = mid;
        }
    }
    if lo < t.len() && t[lo] == x {
        proof {
            let j = choose|j: int| 0 <= j < t@.len() && #[trigger] t@[j] == x;
            if j < lo {
                assert(t@[j] < t@[lo as int]);
            } else if j > lo {
                assert(t@[lo as int] < t@[j]);
            }
        }
        Some(lo)
    } else {
        proof {
            assert forall|j: int| 0 <= j < t@.len() implies #[trigger] t@[j] != x by {
                if j > lo {
                    assert(t@[lo as int] < t@[j]);
                }
            }
        }
        None
    }
}

/// The windows that the backtest scores, for strictly increasing candle times
/// `t` and a decision `off` minutes into each window.
#[verifier::rlimit(40)]
pub fn windows(t: &Vec<i64>, off: usize) -> (r: Vec<(usize, usize, usize)>)
    requires
        strictly_increasing(t@),
        window_times_fit(t@, off as int),
    ensures
        r@ == windows_from(t@, off as int, 0),
{
    let mut r: Vec<(usize, usize, usize)> = Vec::new();
    let mut i: usize = 0;
    let shift: i64 = off as i64 * 60;
    while i < t.len()
        invariant
            i <= t.len(),
            strictly_increasing(t@),
            window_times_fit(t@, off as int),
            shift == off * 60,
            windows_from(t@, off as int, 0) == r@ + windows_from(t@, off as int, i as int),
        decreases t.len() - i,
    {
        let t0 = t[i];
        assert(t0 + 300 <= i64::MAX);
        let ghost before = r@;
        let rem: i64 = t0 % 300;
        assert(rem == trunc_rem(t0 as int, 300));
        if rem == 0 {
            let s = find_time(t, t0 + 300);
            let e = find_time(t, t0 + shift);
            match (s, e) {
                (Some(s), Some(e)) => {
                    if !(e < i || s <= i) {
                        r.push((i, e, s));
                        assert(r@ == before + seq![(i, e, s)]);
                    }
                },
                _ => {},
            }
        }
        i = i + 1;
    }
    r
}

/// Seconds of history that one request asks for: 300 one-minute candles.
pub open spec fn page_secs() -> int {
    18000
}

/// Walks the history backwards from now, one page of candles at a time.
pub struct HistoryPager {
    pub cursor: i64,
    pub start_target: i64,
}

impl HistoryPager {
    /// A walk over the last `days` days before `now_secs` (rounded down to the
    /// minute).
    pub fn new(now_secs: i64, days: i64) -> (r: HistoryPager)
        requires
            i64::MIN <= days * 86400 <= i64::MAX,
            i64::MIN <= trunc_div(now_secs as int, 60) * 60 - days * 86400 <= i64::MAX,
        ensures
            r.cursor == trunc_div(now_secs as int, 60) * 60,
            r.start_target == r.cursor - days * 86400,
    {
        let now: i64 = (now_secs / 60) * 60;
        assert(now == trunc_div(now_secs as int, 60) * 60);
        let back: i64 = days * 86400;
        HistoryPager { cursor: now, start_target: now - back }
    }

    /// The next page as `(start, end)`: it ends at the cursor and starts a page
    /// earlier, but not before the target; none once the cursor has reached
    /// the target.
    pub fn next_range(&self) -> (r: Option<(i64, i64)>)
        requires
            self.cursor >= i64::MIN + page_secs(),
        ensures
            match r {
                Some((s, e)) => self.cursor > self.start_target && e == self.cursor && s == if self.cursor
                    - page_secs() > self.start_target {
                    self.cursor - page_secs()
                } else {
                    self.start_target as int
                },
                None => self.cursor <= self.start_target,
            },
    {
        if self.cursor > self.start_target {
            let back: i64 = self.cursor - 18000;
            let start = if back > self.start_target {
                back
            } else {
                self.start_target
            };
            Some((start, self.cursor))
        } else {
            None
        }
    }

    /// Takes the HTTP status of the page just requested: a rate-limit answer
    /// (429) means the same page is asked for again, so the pager stays where
    /// it is; any other answer moves it to the page before.
    pub fn answered(&mut self, status: u16) -> (retry: bool)
        requires
            old(self).cursor >= i64::MIN + page_secs(),
        ensures
            retry == (status == 429),
            final(self).start_target == old(self).start_target,
            final(self).cursor == if retry {
                old(self).cursor as int
            } else {
                old(self).cursor - page_secs()
            },
    {
        if status == 429 {
            true
        } else {
            self.advance();
            false
        }
    }

    /// Moves to the page before the one just fetched.
    pub fn advance(&mut self)
        requires
            old(self).cursor >= i64::MIN + page_secs(),
        ensures
            final(self).cursor == old(self).cursor - page_secs(),
            final(self).start_target == old(self).start_target,
    {
        self.cursor = self.cursor - 18000;
    }
}

/// The Coinbase request for one-minute BTC-USD candles from `start` to `end`.
pub fn candles_url(start: i64, end: i64) -> (r: String)
    ensures
        r@ == "https://api.exchange.coinbase.com/products/BTC-USD/candles?granularity=60&start="@
            + iso_spec(start as int) + "&end="@ + iso_spec(end as int),
{
    let mut v = to_chars("https://api.exchange.coinbase.com/products/BTC-USD/candles?granularity=60&start=");
    push_str_chars(&mut v, iso(start).as_str());
    push_str_chars(&mut v, "&end=");
    push_str_chars(&mut v, iso(end).as_str());
    from_chars(v.as_slice())
}

} // verus!

verus! {

/// The candle times in kept order.
pub fn times_in_order(t: &Vec<i64>, order: &Vec<usize>) -> (r: Vec<i64>)
    requires
        is_time_order(t@, order@, t.len() as int),
    ensures
        r@.len() == order@.len(),
        forall|k: int| 0 <= k < order@.len() ==> #[trigger] r@[k] == t@[order@[k] as int],
        strictly_increasing(r@),
{
    let mut r: Vec<i64> = Vec::new();
    let mut k: usize = 0;
    while k < order.len()
        invariant
            k <= order.len(),
            is_time_order(t@, order@, t.len() as int),
            r@.len() == k,
            forall|j: int| 0 <= j < k ==> #[trigger] r@[j] == t@[order@[j] as int],
        decreases order.len() - k,
    {
        r.push(t[order[k]]);
        k = k + 1;
    }
    r
}

/// Law: every window that the backtest scores decides on the candle exactly
/// `off` minutes after the window's start and settles on the candle five
/// minutes after it, and its start lies on a five-minute boundary.
#[verifier::rlimit(40)]
pub proof fn lemma_windows_timing(t: Seq<i64>, off: int, i: int)
    requires
        0 <= i,
        t.len() <= usize::MAX,
    ensures
        forall|k: int|
            0 <= k < windows_from(t, off, i).len() ==> {
                let w = #[trigger] windows_from(t, off, i)[k];
                &&& 0 <= w.0 < t.len()
                &&& 0 <= w.1 < t.len()
                &&& 0 <= w.2 < t.len()
                &&& trunc_rem(t[w.0 as int] as int, 300) == 0
                &&& t[w.1 as int] == t[w.0 as int] + off * 60
                &&& t[w.2 as int] == t[w.0 as int] + 300
                &&& w.0 <= w.1
                &&& w.0 < w.2
            },
    decreases t.len() - i,
{
    if i < t.len() {
        lemma_windows_timing(t, off, i + 1);
        let t0 = t[i] as int;
        let ws = windows_from(t, off, i);
        let rest = windows_from(t, off, i + 1);
        assert forall|k: int| 0 <= k < ws.len() implies {
            let w = #[trigger] ws[k];
            &&& 0 <= w.0 < t.len()
            &&& 0 <= w.1 < t.len()
            &&& 0 <= w.2 < t.len()
            &&& trunc_rem(t[w.0 as int] as int, 300) == 0
            &&& t[w.1 as int] == t[w.0 as int] + off * 60
            &&& t[w.2 as int] == t[w.0 as int] + 300
            &&& w.0 <= w.1
            &&& w.0 < w.2
        } by {
            match window_at(t, i, off) {
                Some(w) => {
                    if k > 0 {
                        assert(ws[k] == rest[k - 1]);
                    } else {
                        let so = index_of(t, t0 + 300);
                        let eo = index_of(t, t0 + off * 60);
                        assert(so is Some && eo is Some);
                        assert(0 <= so->0 < t.len() && t[so->0] == t0 + 300);
                        assert(0 <= eo->0 < t.len() && t[eo->0] == t0 + off * 60);
                        assert(ws[0] == w);
                    }
                },
                None => {
                    assert(ws[k] == rest[k]);
                },
            }
        }
    }
}

} // verus!

verus! {

/// Every row calls `Up` for signal `k`.
pub open spec fn always_up(rows: Seq<(Dir, Vec<Option<Dir>>)>, k: int) -> bool {
    forall|r: int| 0 <= r < rows.len() ==> (#[trigger] rows[r]).1@[k] == Some(Dir::Up)
}

/// In every row signal `a` calls the reverse of signal `b`.
pub open spec fn reverses(rows: Seq<(Dir, Vec<Option<Dir>>)>, a: int, b: int) -> bool {
    forall|r: int| 0 <= r < rows.len() ==> (#[trigger] rows[r]).1@[a] == reversed_spec(rows[r].1@[b])
}

/// Number of rows whose window went up.
pub open spec fn ups(rows: Seq<(Dir, Vec<Option<Dir>>)>) -> nat
    decreases rows.len(),
{
    if rows.len() == 0 {
        0
    } else {
        ups(rows.drop_last()) + if rows.last().0 == Dir::Up {
            1nat
        } else {
            0nat
        }
    }
}

/// Number of rows in which signal `k` makes a call.
pub open spec fn calls(rows: Seq<(Dir, Vec<Option<Dir>>)>, k: int) -> nat
    decreases rows.len(),
{
    if rows.len() == 0 {
        0
    } else {
        calls(rows.drop_last(), k) + if rows.last().1@[k] is Some {
            1nat
        } else {
            0nat
        }
    }
}

/// Number of rows in which signal `k` calls the direction the window went.
pub open spec fn hits(rows: Seq<(Dir, Vec<Option<Dir>>)>, k: int) -> nat
    decreases rows.len(),
{
    if rows.len() == 0 {
        0
    } else {
        hits(rows.drop_last(), k) + if rows.last().1@[k] == Some(rows.last().0) {
            1nat
        } else {
            0nat
        }
    }
}

impl Tally {
    /// Scores a whole run of windows, each given as the direction it went and
    /// the signals' calls in signal order: each signal gains one call for
    /// every row in which it calls a direction, and one right call for every
    /// row in which that direction is the one the window went.
    ///
    /// Law (from a fresh tally): a signal that always calls `Up` has as many
    /// calls as windows and as many right calls as windows that went up, so
    /// its accuracy is the share of up windows; two signals that always call
    /// each other's reverse make as many calls each, and their right calls add
    /// up to that number.
    pub fn record_all(&mut self, rows: &Vec<(Dir, Vec<Option<Dir>>)>)
        requires
            old(self).wf(),
            forall|r: int| 0 <= r < rows@.len() ==> (#[trigger] rows@[r]).1@.len() == old(self).results@.len(),
            old(self).windows + rows@.len() <= usize::MAX,
        ensures
            final(self).wf(),
            final(self).windows == old(self).windows + rows@.len(),
            final(self).up_windows == old(self).up_windows + ups(rows@),
            final(self).results@.len() == old(self).results@.len(),
            forall|k: int|
                0 <= k < old(self).results@.len() ==> {
                    &&& (#[trigger] final(self).results@[k]).name == old(self).results@[k].name
                    &&& final(self).results@[k].trades == old(self).results@[k].trades + calls(rows@, k)
                    &&& final(self).results@[k].correct == old(self).results@[k].correct + hits(rows@, k)
                },
            forall|k: int|
                0 <= k < old(self).results@.len() && always_up(rows@, k) && old(self).results@[k].trades
                    == old(self).windows && old(self).results@[k].correct == old(self).up_windows
                    ==> (#[trigger] final(self).results@[k]).trades == final(self).windows
                    && final(self).results@[k].correct == final(self).up_windows,
            forall|a: int, b: int|
                0 <= a < old(self).results@.len() && 0 <= b < old(self).results@.len() && reverses(
                    rows@,
                    a,
                    b,
                ) && paired(old(self).results@[a], old(self).results@[b]) ==> paired(
                    #[trigger] final(self).results@[a],
                    #[trigger] final(self).results@[b],
                ),
    {
        let ghost start = *self;
        let mut r: usize = 0;
        while r < rows.len()
            invariant
                r <= rows@.len(),
                self.wf(),
                forall|q: int| 0 <= q < rows@.len() ==> (#[trigger] rows@[q]).1@.len() == start.results@.len(),
                start.windows + rows@.len() <= usize::MAX,
                self.windows == start.windows + r,
                self.up_windows == start.up_windows + ups(rows@.take(r as int)),
                self.results@.len() == start.results@.len(),
                forall|k: int|
                    0 <= k < start.results@.len() ==> {
                        &&& (#[trigger] self.results@[k]).name == start.results@[k].name
                        &&& self.results@[k].trades == start.results@[k].trades + calls(
                            rows@.take(r as int),
                            k,
                        )
                        &&& self.results@[k].correct == start.results@[k].correct + hits(
                            rows@.take(r as int),
                            k,
                        )
                    },
                forall|k: int|
                    0 <= k < start.results@.len() && always_up(rows@, k) && start.results@[k].trades
                        == start.windows && start.results@[k].correct == start.up_windows
                        ==> (#[trigger] self.results@[k]).trades == self.windows
                        && self.results@[k].correct == self.up_windows,
                forall|a: int, b: int|
                    0 <= a < start.results@.len() && 0 <= b < start.results@.len() && reverses(
                        rows@,
                        a,
                        b,
                    ) && paired(start.results@[a], start.results@[b]) ==> paired(
                        #[trigger] self.results@[a],
                        #[trigger] self.results@[b],
                    ),
            decreases rows@.len() - r,
        {
            let ghost prev = *self;
            assert(rows@.take(r + 1).drop_last() == rows@.take(r as int));
            assert(rows@.take(r + 1).last() == rows@[r as int]);
            let row = &rows[r];
            self.record_window(row.0, &row.1);
            proof {
                assert forall|k: int| 0 <= k < start.results@.len() implies {
                    &&& (#[trigger] self.results@[k]).name == start.results@[k].name
                    &&& self.results@[k].trades == start.results@[k].trades + calls(
                        rows@.take(r + 1),
                        k,
                    )
                    &&& self.results@[k].correct == start.results@[k].correct + hits(
                        rows@.take(r + 1),
                        k,
                    )
                } by {
                    assert(prev.results@[k].name == start.results@[k].name);
                }
                assert forall|k: int|
                    0 <= k < start.results@.len() && always_up(rows@, k) && start.results@[k].trades
                        == start.windows && start.results@[k].correct == start.up_windows
                        implies (#[trigger] self.results@[k]).trades == self.windows
                        && self.results@[k].correct == self.up_windows by {
                    assert(rows@[r as int].1@[k] == Some(Dir::Up));
                    assert(prev.results@[k].trades == prev.windows);
                }
                assert forall|a: int, b: int|
                    0 <= a < start.results@.len() && 0 <= b < start.results@.len() && reverses(
                        rows@,
                        a,
                        b,
                    ) && paired(start.results@[a], start.results@[b]) implies paired(
                        #[trigger] self.results@[a],
                        #[trigger] self.results@[b],
                    ) by {
                    assert(rows@[r as int].1@[a] == reversed_spec(rows@[r as int].1@[b]));
                    assert(paired(prev.results@[a], prev.results@[b]));
                }
            }
            r = r + 1;
        }
        assert(rows@.take(rows@.len() as int) == rows@);
    }
}

} // verus!
