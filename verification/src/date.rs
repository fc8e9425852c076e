//! A plain calendar date (no time component) and the strict parser for the
//! listing page's deadline format: a 4-digit year, a full English month
//! name and a 1- or 2-digit day, separated by hyphens (for example
//! `2023-March-05`). Dates that do not exist on the calendar are rejected.

use vstd::prelude::*;

verus! {

/// A calendar date, stored as plain year, month and day numbers.
#[derive(Debug, Clone, Copy, PartialEq, Eq, Structural)]
pub struct Date {
    /// Four-digit year.
    pub year: u32,
    /// Month number, 1 through 12.
    pub month: u8,
    /// Day of the month, 1 through the month's length.
    pub day: u8,
}

/// Whether a year is a leap year in the Gregorian calendar.
pub open spec fn spec_is_leap(y: int) -> bool {
    (y % 4 == 0 && y % 100 != 0) || y % 400 == 0
}

/// The number of days in a month of a given year.
pub open spec fn spec_days_in_month(y: int, m: int) -> int {
    if m == 2 {
        if spec_is_leap(y) {
            29
        } else {
            28
        }
    } else if m == 4 || m == 6 || m == 9 || m == 11 {
        30
    } else {
        31
    }
}

/// Whether the fields denote a day that exists on the calendar, within the
/// four-digit year range the deadline format can express.
pub open spec fn spec_date_valid(d: Date) -> bool {
    &&& d.year <= 9999
    &&& 1 <= d.month <= 12
    &&& 1 <= d.day <= spec_days_in_month(d.year as int, d.month as int)
}

/// The number of days in a month of a given year.
pub fn days_in_month(y: u32, m: u8) -> (r: u8)
    requires
        1 <= m <= 12,
    ensures
        r == spec_days_in_month(y as int, m as int),
{
    if m == 2 {
        if (y % 4 == 0 && y % 100 != 0) || y % 400 == 0 {
            29
        } else {
            28
        }
    } else if m == 4 || m == 6 || m == 9 || m == 11 {
        30
    } else {
        31
    }
}

/// Whether a character is a decimal digit.
pub open spec fn spec_is_digit(c: char) -> bool {
    '0' as u32 <= c as u32 && c as u32 <= '9' as u32
}

/// The numeric value of a decimal digit character.
pub open spec fn spec_digit_val(c: char) -> int {
    c as u32 - '0' as u32
}

/// The full English month names, in calendar order; `m` is 1 through 12.
pub open spec fn spec_month_name(m: int) -> Seq<char> {
    if m == 1 {
        "January"@
    } else if m == 2 {
        "February"@
    } else if m == 3 {
        "March"@
    } else if m == 4 {
        "April"@
    } else if m == 5 {
        "May"@
    } else if m == 6 {
        "June"@
    } else if m == 7 {
        "July"@
    } else if m == 8 {
        "August"@
    } else if m == 9 {
        "September"@
    } else if m == 10 {
        "October"@
    } else if m == 11 {
        "November"@
    } else {
        "December"@
    }
}

/// The month number named by a text, if any.
pub open spec fn spec_month_of_name(s: Seq<char>) -> Option<u8> {
    if s == spec_month_name(1) {
        Some(1u8)
    } else if s == spec_month_name(2) {
        Some(2u8)
    } else if s == spec_month_name(3) {
        Some(3u8)
    } else if s == spec_month_name(4) {
        Some(4u8)
    } else if s == spec_month_name(5) {
        Some(5u8)
    } else if s == spec_month_name(6) {
        Some(6u8)
    } else if s == spec_month_name(7) {
        Some(7u8)
    } else if s == spec_month_name(8) {
        Some(8u8)
    } else if s == spec_month_name(9) {
        Some(9u8)
    } else if s == spec_month_name(10) {
        Some(10u8)
    } else if s == spec_month_name(11) {
        Some(11u8)
    } else if s == spec_month_name(12) {
        Some(12u8)
    } else {
        None
    }
}

/// The index of the first hyphen in `s`, if any.
pub open spec fn spec_find_hyphen(s: Seq<char>) -> Option<int>
    decreases s.len(),
{
    if s.len() == 0 {
        None
    } else if s[0] == '-' {
        Some(0)
    } else {
        match spec_find_hyphen(s.skip(1)) {
            Some(j) => Some(j + 1),
            None => None,
        }
    }
}

/// The date denoted by a deadline text, if the text is exactly a 4-digit
/// year, a hyphen, a full month name, a hyphen and a 1- or 2-digit day,
/// and that day exists on the calendar.
pub open spec fn spec_parse_date(s: Seq<char>) -> Option<Date> {
    if s.len() >= 5 && spec_is_digit(s[0]) && spec_is_digit(s[1]) && spec_is_digit(s[2])
        && spec_is_digit(s[3]) && s[4] == '-' {
        let y = spec_digit_val(s[0]) * 1000 + spec_digit_val(s[1]) * 100 + spec_digit_val(s[2])
            * 10 + spec_digit_val(s[3]);
        let rest = s.skip(5);
        match spec_find_hyphen(rest) {
            Some(j) => match spec_month_of_name(rest.take(j)) {
                Some(m) => {
                    let day_part = rest.skip(j + 1);
                    if day_part.len() == 1 && spec_is_digit(day_part[0]) {
                        let d = Date { year: y as u32, month: m, day: spec_digit_val(day_part[0]) as u8 };
                        if spec_date_valid(d) {
                            Some(d)
                        } else {
                            None
                        }
                    } else if day_part.len() == 2 && spec_is_digit(day_part[0]) && spec_is_digit(
                        day_part[1],
                    ) {
                        let d = Date {
                            year: y as u32,
                            month: m,
                            day: (spec_digit_val(day_part[0]) * 10 + spec_digit_val(
                                day_part[1],
                            )) as u8,
                        };
                        if spec_date_valid(d) {
                            Some(d)
                        } else {
                            None
                        }
                    } else {
                        None
                    }
                },
                None => None,
            },
            None => None,
        }
    } else {
        None
    }
}

/// Whether a character is a decimal digit.
pub fn is_digit(c: char) -> (r: bool)
    ensures
        r == spec_is_digit(c),
{
    '0' as u32 <= c as u32 && c as u32 <= '9' as u32
}

/// The numeric value of a decimal digit character.
pub fn digit_val(c: char) -> (r: u32)
    requires
        spec_is_digit(c),
    ensures
        r == spec_digit_val(c),
        r <= 9,
{
    c as u32 - '0' as u32
}

/// Whether `v[from..to]` equals the view of `lit`.
pub fn range_eq_str(v: &Vec<char>, from: usize, to: usize, lit: &str) -> (r: bool)
    requires
        from <= to <= v@.len(),
    ensures
        r == (v@.subrange(from as int, to as int) == lit@),
{
    let n = lit.unicode_len();
    if n != to - from {
        assert(v@.subrange(from as int, to as int).len() == to - from);
        return false;
    }
    let mut j: usize = 0;
    while j < n
        invariant
            from <= to <= v@.len(),
            n == to - from,
            n == lit@.len(),
            j <= n,
            forall|k: int| 0 <= k < j ==> v@[from + k] == lit@[k],
        decreases n - j,
    {
        if v[from + j] != lit.get_char(j) {
            assert(v@.subrange(from as int, to as int)[j as int] == v@[from + j]);
            return false;
        }
        j += 1;
    }
    assert(v@.subrange(from as int, to as int) =~= lit@);
    true
}

/// The month number named by `v[from..to]`, if any.
fn month_of_range(v: &Vec<char>, from: usize, to: usize) -> (r: Option<u8>)
    requires
        from <= to <= v@.len(),
    ensures
        r == spec_month_of_name(v@.subrange(from as int, to as int)),
{
    if range_eq_str(v, from, to, "January") {
        Some(1)
    } else if range_eq_str(v, from, to, "February") {
        Some(2)
    } else if range_eq_str(v, from, to, "March") {
        Some(3)
    } else if range_eq_str(v, from, to, "April") {
        Some(4)
    } else if range_eq_str(v, from, to, "May") {
        Some(5)
    } else if range_eq_str(v, from, to, "June") {
        Some(6)
    } else if range_eq_str(v, from, to, "July") {
        Some(7)
    } else if range_eq_str(v, from, to, "August") {
        Some(8)
    } else if range_eq_str(v, from, to, "September") {
        Some(9)
    } else if range_eq_str(v, from, to, "October") {
        Some(10)
    } else if range_eq_str(v, from, to, "November") {
        Some(11)
    } else if range_eq_str(v, from, to, "December") {
        Some(12)
    } else {
        None
    }
}

/// Parses a deadline text into a date; texts not in the fixed format, and
/// days that do not exist on the calendar, are rejected.
pub fn parse_date(v: &Vec<char>) -> (r: Option<Date>)
    ensures
        r == spec_parse_date(v@),
        r matches Some(d) ==> spec_date_valid(d),
{
    let n = v.len();
    if n < 5 {
        return None;
    }
    if !(is_digit(v[0]) && is_digit(v[1]) && is_digit(v[2]) && is_digit(v[3]) && v[4] == '-') {
        return None;
    }
    let y: u32 = digit_val(v[0]) * 1000 + digit_val(v[1]) * 100 + digit_val(v[2]) * 10 + digit_val(
        v[3],
    );
    let ghost rest = v@.skip(5);
    // find the hyphen that ends the month name
    let mut k: usize = 5;
    while k < n && v[k] != '-'
        invariant
            5 <= k <= n,
            n == v@.len(),
            forall|t: int| 5 <= t < k ==> v@[t] != '-',
        decreases n - k,
    {
        k += 1;
    }
    if k == n {
        proof {
            assert(spec_find_hyphen(rest) is None) by {
                lemma_find_hyphen_none(rest);
                assert(forall|t: int| 0 <= t < rest.len() ==> rest[t] == v@[t + 5] && v@[t + 5]
                    != '-');
            }
        }
        return None;
    }
    proof {
        lemma_find_hyphen_found(rest, k - 5);
        assert(rest[k - 5] == v@[k as int]);
        assert(forall|t: int| 0 <= t < k - 5 ==> rest[t] == v@[t + 5] && v@[t + 5] != '-');
    }
    let m_opt = month_of_range(v, 5, k);
    proof {
        assert(v@.subrange(5, k as int) =~= rest.take(k - 5));
    }
    let m = match m_opt {
        Some(m) => m,
        None => {
            return None;
        },
    };
    // day part: the characters after the hyphen
    let ghost day_part = rest.skip(k - 5 + 1);
    proof {
        assert(day_part =~= v@.skip(k + 1));
        assert(day_part.len() == n - k - 1);
    }
    let d: u32 = if n - k - 1 == 1 && is_digit(v[k + 1]) {
        proof {
            assert(day_part[0] == v@[k + 1]);
        }
        digit_val(v[k + 1])
    } else if n - k - 1 == 2 && is_digit(v[k + 1]) && is_digit(v[k + 2]) {
        proof {
            assert(day_part[0] == v@[k + 1]);
            assert(day_part[1] == v@[k + 2]);
        }
        digit_val(v[k + 1]) * 10 + digit_val(v[k + 2])
    } else {
        return None;
    };
    let date = Date { year: y, month: m, day: d as u8 };
    if 1 <= date.month && date.month <= 12 && 1 <= date.day && date.day <= days_in_month(
        date.year,
        date.month,
    ) {
        assert(spec_date_valid(date));
        Some(date)
    } else {
        assert(!spec_date_valid(date));
        None
    }
}

/// If no character of `s` is a hyphen, no hyphen is found.
proof fn lemma_find_hyphen_none(s: Seq<char>)
    requires
        forall|t: int| 0 <= t < s.len() ==> s[t] != '-',
    ensures
        spec_find_hyphen(s) is None,
    decreases s.len(),
{
    if s.len() > 0 {
        assert(forall|t: int| 0 <= t < s.skip(1).len() ==> s.skip(1)[t] == s[t + 1]);
        lemma_find_hyphen_none(s.skip(1));
    }
}

/// If `s[j]` is the first hyphen of `s`, it is the one that is found.
proof fn lemma_find_hyphen_found(s: Seq<char>, j: int)
    requires
        0 <= j < s.len(),
        s[j] == '-',
        forall|t: int| 0 <= t < j ==> s[t] != '-',
    ensures
        spec_find_hyphen(s) == Some(j),
    decreases j,
{
    if j > 0 {
        assert(forall|t: int| 0 <= t < s.skip(1).len() ==> s.skip(1)[t] == s[t + 1]);
        lemma_find_hyphen_found(s.skip(1), j - 1);
    }
}

} // verus!
