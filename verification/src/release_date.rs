//! Release dates as Tidal writes them: `YYYY`, `YYYY-MM` or `YYYY-MM-DD`.
use vstd::prelude::*;

use crate::filesystem::{lemma_split_append, split_chars, split_on};
use crate::text::{
    all_ascii_digits, all_digits, char_utf8_len, chars_of, decimal_value, is_ascii_digit,
    utf8_len,
};

verus! {

/// A release date; month and day are known only when the source gave them.
#[derive(Debug, Clone, Copy, PartialEq, Eq, Structural)]
pub struct ReleaseDate {
    pub year: i32,
    pub month: Option<i32>,
    pub day: Option<i32>,
}

pub open spec fn is_leap_year(year: int) -> bool {
    (year % 4 == 0 && year % 100 != 0) || year % 400 == 0
}

pub open spec fn days_in_month(year: int, month: int) -> int {
    if month == 2 {
        if is_leap_year(year) {
            29
        } else {
            28
        }
    } else if month == 4 || month == 6 || month == 9 || month == 11 {
        30
    } else {
        31
    }
}

/// Whether a day of the proleptic Gregorian calendar exists.
pub open spec fn valid_calendar_day(year: int, month: int, day: int) -> bool {
    1 <= month <= 12 && 1 <= day <= days_in_month(year, month)
}

/// What `u32::from_str` accepts: an optional `+`, then one or more ASCII digits whose
/// value fits in a `u32`.
pub open spec fn parse_u32_text(s: Seq<char>) -> Option<int> {
    let digits = if s.len() > 0 && s[0] == '+' {
        s.drop_first()
    } else {
        s
    };
    if digits.len() > 0 && all_ascii_digits(digits) && decimal_value(digits) <= u32::MAX {
        Some(decimal_value(digits))
    } else {
        None
    }
}

/// The date that `value` denotes, or the message that says why it denotes none.
pub open spec fn release_date_of(value: Seq<char>) -> Result<ReleaseDate, Seq<char>> {
    let parts = split_on(value, '-');
    let year_text = parts[0];
    let year = decimal_value(year_text);
    if utf8_len(year_text) != 4 || !all_ascii_digits(year_text) {
        Err("invalid year"@)
    } else if !(1 <= year <= 9999) {
        Err("year out of range"@)
    } else if parts.len() == 1 {
        Ok(ReleaseDate { year: year as i32, month: None, day: None })
    } else if parts.len() == 2 && utf8_len(parts[1]) == 2 {
        match parse_u32_text(parts[1]) {
            None => Err("invalid month"@),
            Some(month) => if 1 <= month <= 12 {
                Ok(ReleaseDate { year: year as i32, month: Some(month as i32), day: None })
            } else {
                Err("month out of range"@)
            },
        }
    } else if parts.len() == 3 && utf8_len(parts[1]) == 2 && utf8_len(parts[2]) == 2 {
        match (parse_u32_text(parts[1]), parse_u32_text(parts[2])) {
            (None, _) => Err("invalid month"@),
            (Some(_), None) => Err("invalid day"@),
            (Some(month), Some(day)) => if valid_calendar_day(year, month, day) {
                Ok(ReleaseDate { year: year as i32, month: Some(month as i32), day: Some(day as i32) })
            } else {
                Err("invalid date"@)
            },
        }
    } else {
        Err("invalid date format"@)
    }
}

/// Whether the result of `parse_release_date` is what `release_date_of` says.
pub open spec fn parsed_as(r: Result<ReleaseDate, &'static str>, value: Seq<char>) -> bool {
    match (r, release_date_of(value)) {
        (Ok(a), Ok(b)) => a == b,
        (Err(e), Err(m)) => e@ == m,
        _ => false,
    }
}

/// `NaiveDate::from_ymd_opt` succeeds exactly for the days of the proleptic Gregorian
/// calendar; years from 1 to 9999 lie inside chrono's range.
#[verifier::external_body]
fn calendar_day_exists(year: i32, month: u32, day: u32) -> (r: bool)
    requires
        1 <= year <= 9999,
    ensures
        r == valid_calendar_day(year as int, month as int, day as int),
{
    chrono::NaiveDate::from_ymd_opt(year, month, day).is_some()
}

/// Whether the UTF-8 encoding of `s` is exactly `k` bytes long.
pub fn utf8_len_equals(s: &[char], k: usize) -> (r: bool)
    ensures
        r == (utf8_len(s@) == k),
{
    let mut n: usize = 0;
    let mut i: usize = 0;
    while i < s.len()
        invariant
            i <= s@.len(),
            n == utf8_len(s@.take(i as int)),
            n <= k,
        decreases s.len() - i,
    {
        assert(s@.take(i + 1).drop_last() == s@.take(i as int));
        let c = s[i] as u32;
        let w: usize = if c < 0x80 {
            1
        } else if c < 0x800 {
            2
        } else if c < 0x10000 {
            3
        } else {
            4
        };
        assert(w == char_utf8_len(s@[i as int]));
        if w > k - n {
            proof {
                lemma_utf8_len_prefix_monotone(s@, i + 1);
            }
            return false;
        }
        n = n + w;
        i = i + 1;
    }
    assert(s@.take(s@.len() as int) == s@);
    n == k
}

proof fn lemma_utf8_len_prefix_monotone(s: Seq<char>, i: int)
    requires
        0 <= i <= s.len(),
    ensures
        utf8_len(s.take(i)) <= utf8_len(s),
    decreases s.len() - i,
{
    if i < s.len() {
        lemma_utf8_len_prefix_monotone(s, i + 1);
        assert(s.take(i + 1).drop_last() == s.take(i));
    } else {
        assert(s.take(i) == s);
    }
}

pub open spec fn pow10(n: nat) -> int
    decreases n,
{
    if n == 0 {
        1
    } else {
        10 * pow10((n - 1) as nat)
    }
}

proof fn lemma_pow10_grows(n: nat, m: nat)
    requires
        n <= m,
    ensures
        pow10(n) <= pow10(m),
        1 <= pow10(n),
    decreases m,
{
    if n < m {
        lemma_pow10_grows(n, (m - 1) as nat);
    } else if n > 0 {
        lemma_pow10_grows((n - 1) as nat, (n - 1) as nat);
    }
}

proof fn lemma_decimal_value_bound(s: Seq<char>)
    requires
        all_ascii_digits(s),
    ensures
        0 <= decimal_value(s),
        decimal_value(s) < pow10(s.len()),
        s.len() <= 9 ==> decimal_value(s) < 1_000_000_000,
    decreases s.len(),
{
    if s.len() <= 9 {
        lemma_pow10_grows(s.len(), 9);
        reveal_with_fuel(pow10, 10);
    }
    if s.len() > 0 {
        assert(all_ascii_digits(s.drop_last())) by {
            assert forall|i: int| 0 <= i < s.drop_last().len() implies is_ascii_digit(
                #[trigger] s.drop_last()[i],
            ) by {
                assert(s.drop_last()[i] == s[i]);
            }
        }
        lemma_decimal_value_bound(s.drop_last());
        assert(is_ascii_digit(s[s.len() - 1]));
    }
}

/// The value of a string of at most nine ASCII digits.
fn small_decimal(s: &[char]) -> (v: u32)
    requires
        s@.len() <= 9,
        all_ascii_digits(s@),
    ensures
        v == decimal_value(s@),
{
    let mut v: u32 = 0;
    let mut i: usize = 0;
    while i < s.len()
        invariant
            i <= s@.len() <= 9,
            all_ascii_digits(s@),
            v == decimal_value(s@.take(i as int)),
        decreases s.len() - i,
    {
        assert(s@.take(i + 1).drop_last() == s@.take(i as int));
        proof {
            assert(all_ascii_digits(s@.take(i + 1))) by {
                assert forall|j: int| 0 <= j < s@.take(i + 1).len() implies is_ascii_digit(
                    #[trigger] s@.take(i + 1)[j],
                ) by {
                    assert(s@.take(i + 1)[j] == s@[j]);
                }
            }
            lemma_decimal_value_bound(s@.take(i + 1));
            assert(is_ascii_digit(s@[i as int]));
        }
        let d = (s[i] as u32) - ('0' as u32);
        v = v * 10 + d;
        i = i + 1;
    }
    assert(s@.take(s@.len() as int) == s@);
    v
}

/// `u32::from_str` on a string of at most two characters.
fn parse_short_u32(s: &[char]) -> (r: Option<u32>)
    requires
        s@.len() <= 2,
    ensures
        match (r, parse_u32_text(s@)) {
            (Some(a), Some(b)) => a == b,
            (None, None) => true,
            _ => false,
        },
{
    let plus = s.len() > 0 && s[0] == '+';
    let mut digits: Vec<char> = Vec::new();
    let mut i: usize = if plus {
        1
    } else {
        0
    };
    while i < s.len()
        invariant
            (if plus {
                1int
            } else {
                0int
            }) <= i <= s@.len() <= 2,
            digits@ == s@.subrange(
                if plus {
                    1int
                } else {
                    0int
                },
                i as int,
            ),
        decreases s.len() - i,
    {
        digits.push(s[i]);
        i = i + 1;
    }
    proof {
        if plus {
            assert(digits@ =~= s@.drop_first());
        } else {
            assert(digits@ =~= s@);
        }
    }
    if digits.len() > 0 && all_digits(&digits) {
        proof {
            lemma_decimal_value_bound(digits@);
        }
        Some(small_decimal(&digits))
    } else {
        None
    }
}

/// Parses a Tidal release date: a four-digit year from 1 to 9999, optionally followed by
/// a two-character month from 1 to 12, optionally followed by a two-character day that
/// exists in that month.
pub fn parse_release_date(value: &str) -> (r: Result<ReleaseDate, &'static str>)
    ensures
        parsed_as(r, value@),
{
    let chars = chars_of(value);
    let parts = split_chars(&chars, '-');
    proof {
        lemma_split_len(chars@, '-');
    }
    let year_text = &parts[0];
    if !utf8_len_equals(year_text.as_slice(), 4) || !all_digits(year_text.as_slice()) {
        return Err("invalid year");
    }
    proof {
        lemma_ascii_utf8_len(year_text@);
        lemma_decimal_value_bound(year_text@);
    }
    let year_value = small_decimal(year_text.as_slice());
    if !(1 <= year_value && year_value <= 9999) {
        return Err("year out of range");
    }
    let year = year_value as i32;
    if parts.len() == 1 {
        return Ok(ReleaseDate { year, month: None, day: None });
    }
    if parts.len() == 2 && utf8_len_equals(parts[1].as_slice(), 2) {
        proof {
            lemma_utf8_len_bounds_len(parts[1]@);
        }
        let month = match parse_short_u32(parts[1].as_slice()) {
            Some(m) => m,
            None => return Err("invalid month"),
        };
        if !(1 <= month && month <= 12) {
            return Err("month out of range");
        }
        return Ok(ReleaseDate { year, month: Some(month as i32), day: None });
    }
    if parts.len() == 3 && utf8_len_equals(parts[1].as_slice(), 2) && utf8_len_equals(
        parts[2].as_slice(),
        2,
    ) {
        proof {
            lemma_utf8_len_bounds_len(parts[1]@);
            lemma_utf8_len_bounds_len(parts[2]@);
        }
        let month = match parse_short_u32(parts[1].as_slice()) {
            Some(m) => m,
            None => return Err("invalid month"),
        };
        let day = match parse_short_u32(parts[2].as_slice()) {
            Some(d) => d,
            None => return Err("invalid day"),
        };
        if !calendar_day_exists(year, month, day) {
            return Err("invalid date");
        }
        return Ok(ReleaseDate { year, month: Some(month as i32), day: Some(day as i32) });
    }
    Err("invalid date format")
}

proof fn lemma_split_len(s: Seq<char>, sep: char)
    ensures
        split_on(s, sep).len() >= 1,
    decreases s.len(),
{
    if s.len() > 0 {
        lemma_split_len(s.drop_last(), sep);
    }
}

/// A string of ASCII digits is as long in bytes as in characters.
proof fn lemma_ascii_utf8_len(s: Seq<char>)
    requires
        all_ascii_digits(s),
    ensures
        utf8_len(s) == s.len(),
    decreases s.len(),
{
    if s.len() > 0 {
        assert(all_ascii_digits(s.drop_last())) by {
            assert forall|i: int| 0 <= i < s.drop_last().len() implies is_ascii_digit(
                #[trigger] s.drop_last()[i],
            ) by {
                assert(s.drop_last()[i] == s[i]);
            }
        }
        lemma_ascii_utf8_len(s.drop_last());
        assert(is_ascii_digit(s[s.len() - 1]));
    }
}

/// Every character takes at least one byte.
proof fn lemma_utf8_len_bounds_len(s: Seq<char>)
    ensures
        s.len() <= utf8_len(s),
    decreases s.len(),
{
    if s.len() > 0 {
        lemma_utf8_len_bounds_len(s.drop_last());
    }
}

/// The value of one decimal digit character.
pub open spec fn digit(c: char) -> int {
    c as int - 48
}

proof fn lemma_field_value(s: Seq<char>)
    requires
        all_ascii_digits(s),
        1 <= s.len() <= 4,
    ensures
        utf8_len(s) == s.len(),
        s.len() == 2 ==> decimal_value(s) == 10 * digit(s[0]) + digit(s[1]),
        s.len() == 4 ==> decimal_value(s) == 1000 * digit(s[0]) + 100 * digit(s[1]) + 10 * digit(
            s[2],
        ) + digit(s[3]),
        s.len() == 2 ==> parse_u32_text(s) == Some(10 * digit(s[0]) + digit(s[1])),
{
    lemma_ascii_utf8_len(s);
    let a = s.drop_last();
    let b = a.drop_last();
    let c = b.drop_last();
    assert(is_ascii_digit(s[0]));
    if s.len() >= 2 {
        assert(is_ascii_digit(s[1]));
        assert(a.last() == s[s.len() - 2]);
    }
    if s.len() >= 3 {
        assert(b.last() == s[s.len() - 3]);
    }
    if s.len() == 4 {
        assert(('0' as u32) == 48);
        assert(c.last() == s[0]);
        assert(c.drop_last().len() == 0);
        assert(decimal_value(c.drop_last()) == 0);
        assert(decimal_value(c) == digit(s[0]));
        assert(b.last() == s[1]);
        assert(decimal_value(b) == decimal_value(c) * 10 + digit(s[1]));
        assert(a.last() == s[2]);
        assert(decimal_value(a) == decimal_value(b) * 10 + digit(s[2]));
        assert(s.last() == s[3]);
        assert(decimal_value(s) == decimal_value(a) * 10 + digit(s[3]));
    }
    if s.len() == 2 {
        assert(b.len() == 0);
        assert(s[0] != '+');
        assert(('0' as u32) == 48);
        assert(s.last() == s[1]);
        assert(a.last() == s[0]);
        assert(decimal_value(b) == 0);
        assert(decimal_value(a) == crate::text::digit_value(s[0]));
        assert(decimal_value(s) == decimal_value(a) * 10 + crate::text::digit_value(s[1]));
        assert(crate::text::digit_value(s[0]) == digit(s[0]));
        assert(crate::text::digit_value(s[1]) == digit(s[1]));
        assert(decimal_value(s) <= 99);
    }
}

proof fn lemma_split_fields(y: Seq<char>, m: Seq<char>, d: Seq<char>)
    requires
        all_ascii_digits(y),
        all_ascii_digits(m),
        all_ascii_digits(d),
    ensures
        split_on(y + seq!['-'] + m, '-') == seq![y, m],
        split_on(y + seq!['-'] + m + seq!['-'] + d, '-') == seq![y, m, d],
{
    assert forall|i: int| 0 <= i < y.len() implies #[trigger] y[i] != '-' by {
        assert(is_ascii_digit(y[i]));
    }
    assert forall|i: int| 0 <= i < m.len() implies #[trigger] m[i] != '-' by {
        assert(is_ascii_digit(m[i]));
    }
    assert forall|i: int| 0 <= i < d.len() implies #[trigger] d[i] != '-' by {
        assert(is_ascii_digit(d[i]));
    }
    let e = Seq::<char>::empty();
    lemma_split_append(e, y, '-');
    assert(e + y =~= y);
    assert(split_on(e, '-') == seq![e]);
    assert(split_on(y, '-') =~= seq![y]);
    let y1 = y + seq!['-'];
    assert(y1.drop_last() =~= y);
    assert(split_on(y1, '-') =~= seq![y, e]);
    lemma_split_append(y1, m, '-');
    assert(e + m =~= m);
    assert(split_on(y1 + m, '-') =~= seq![y, m]);
    let m1 = y1 + m + seq!['-'];
    assert(m1.drop_last() =~= y1 + m);
    assert(split_on(m1, '-') =~= seq![y, m, e]);
    lemma_split_append(m1, d, '-');
    assert(e + d =~= d);
    assert(split_on(m1 + d, '-') =~= seq![y, m, d]);
    assert(y + seq!['-'] + m == y1 + m);
    assert(y + seq!['-'] + m + seq!['-'] + d == m1 + d);
}

/// A date written `YYYY`, `YYYY-MM` or `YYYY-MM-DD` in digits reads its year from the
/// first field, its month from the second and its day from the third; it parses exactly
/// when the year is 1 to 9999, the month 1 to 12 and, when given, the day exists in that
/// month.
pub proof fn law_dates_read_year_month_and_day(y: Seq<char>, m: Seq<char>, d: Seq<char>)
    requires
        y.len() == 4,
        m.len() == 2,
        d.len() == 2,
        all_ascii_digits(y),
        all_ascii_digits(m),
        all_ascii_digits(d),
    ensures
        ({
            let year = 1000 * digit(y[0]) + 100 * digit(y[1]) + 10 * digit(y[2]) + digit(y[3]);
            let month = 10 * digit(m[0]) + digit(m[1]);
            let day = 10 * digit(d[0]) + digit(d[1]);
            &&& release_date_of(y) is Ok <==> 1 <= year <= 9999
            &&& release_date_of(y) is Ok ==> release_date_of(y) == Ok::<ReleaseDate, Seq<char>>(
                ReleaseDate { year: year as i32, month: None, day: None },
            )
            &&& release_date_of(y + seq!['-'] + m) is Ok <==> 1 <= year <= 9999 && 1 <= month <= 12
            &&& release_date_of(y + seq!['-'] + m) is Ok ==> release_date_of(y + seq!['-'] + m)
                == Ok::<ReleaseDate, Seq<char>>(
                ReleaseDate { year: year as i32, month: Some(month as i32), day: None },
            )
            &&& release_date_of(y + seq!['-'] + m + seq!['-'] + d) is Ok <==> 1 <= year <= 9999
                && valid_calendar_day(year, month, day)
            &&& release_date_of(y + seq!['-'] + m + seq!['-'] + d) is Ok ==> release_date_of(
                y + seq!['-'] + m + seq!['-'] + d,
            ) == Ok::<ReleaseDate, Seq<char>>(
                ReleaseDate { year: year as i32, month: Some(month as i32), day: Some(day as i32) },
            )
        }),
{
    lemma_field_value(y);
    lemma_field_value(m);
    lemma_field_value(d);
    lemma_split_fields(y, m, d);
    let e = Seq::<char>::empty();
    crate::filesystem::lemma_split_append(e, y, '-');
    assert(e + y =~= y);
    assert(split_on(e, '-') == seq![e]);
    assert(split_on(y, '-') =~= seq![y]);
    assert(forall|i: int| 0 <= i < 4 ==> is_ascii_digit(#[trigger] y[i]));
    assert(forall|i: int| 0 <= i < 2 ==> is_ascii_digit(#[trigger] m[i]));
    assert(forall|i: int| 0 <= i < 2 ==> is_ascii_digit(#[trigger] d[i]));
}

} // verus!
