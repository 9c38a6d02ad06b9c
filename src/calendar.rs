use vstd::prelude::*;
use vstd::string::StringSliceAdditionalSpecFns;
use crate::model::Day;

verus! {

/// Gregorian leap-year rule.
pub open spec fn leap(y: int) -> bool {
    (y % 4 == 0 && y % 100 != 0) || y % 400 == 0
}

pub open spec fn days_in_month(y: int, m: int) -> int {
    if m == 2 {
        if leap(y) { 29 } else { 28 }
    } else if m == 4 || m == 6 || m == 9 || m == 11 {
        30
    } else {
        31
    }
}

/// A real calendar day between 0001-01-01 and 9999-12-31.
pub open spec fn valid_date(y: int, m: int, d: int) -> bool {
    1 <= y <= 9999 && 1 <= m <= 12 && 1 <= d <= days_in_month(y, m)
}

/// Days from 0001-01-01 to January 1st of year `y`.
pub open spec fn days_before_year(y: int) -> int {
    365 * (y - 1) + (y - 1) / 4 - (y - 1) / 100 + (y - 1) / 400
}

/// Days from January 1st to the first of month `m` in year `y`.
pub open spec fn days_before_month(y: int, m: int) -> int
    decreases m,
{
    if m <= 1 {
        0
    } else {
        days_before_month(y, m - 1) + days_in_month(y, m - 1)
    }
}

/// The day number of a calendar date: 0001-01-01 is day 0, and each next day adds one.
pub open spec fn day_of(y: int, m: int, d: int) -> int {
    days_before_year(y) + days_before_month(y, m) + d - 1
}

fn is_leap(y: u32) -> (r: bool)
    ensures
        r == leap(y as int),
{
    (y % 4 == 0 && y % 100 != 0) || y % 400 == 0
}

fn month_length(y: u32, m: u32) -> (r: u32)
    ensures
        r == days_in_month(y as int, m as int),
{
    if m == 2 {
        if is_leap(y) { 29 } else { 28 }
    } else if m == 4 || m == 6 || m == 9 || m == 11 {
        30
    } else {
        31
    }
}

proof fn lemma_days_before_month_bound(y: int, m: int)
    requires
        1 <= m <= 12,
    ensures
        0 <= days_before_month(y, m) <= 31 * (m - 1),
    decreases m,
{
    if m > 1 {
        lemma_days_before_month_bound(y, m - 1);
    }
}

/// The day number of `year-month-day`, or `None` when that is no calendar date.
pub fn day_number(year: u32, month: u32, day: u32) -> (r: Option<Day>)
    ensures
        r is Some <==> valid_date(year as int, month as int, day as int),
        r matches Some(n) ==> n as int == day_of(year as int, month as int, day as int),
{
    if year < 1 || year > 9999 || month < 1 || month > 12 || day < 1 {
        return None;
    }
    if day > month_length(year, month) {
        return None;
    }
    let mut before: u32 = 0;
    let mut k: u32 = 1;
    while k < month
        invariant
            1 <= k <= month <= 12,
            1 <= year <= 9999,
            before as int == days_before_month(year as int, k as int),
        decreases month - k,
    {
        proof {
            lemma_days_before_month_bound(year as int, k as int);
        }
        before = before + month_length(year, k);
        k = k + 1;
    }
    proof {
        lemma_days_before_month_bound(year as int, month as int);
    }
    let p: u32 = year - 1;
    assert(365 * p <= 365 * 9998) by (nonlinear_arith)
        requires
            p <= 9998,
    ;
    let years: u32 = 365 * p + p / 4 - p / 100 + p / 400;
    Some(years + before + day - 1)
}

/// The digit value of `b`, when `b` is an ASCII digit.
pub open spec fn digit(b: u8) -> int {
    b as int - 48
}

pub open spec fn is_digit(b: u8) -> bool {
    48 <= b <= 57
}

/// The number written by the ASCII digits `s[lo..hi)`, most significant first.
pub open spec fn number(s: Seq<u8>, lo: int, hi: int) -> int
    decreases hi - lo,
{
    if hi <= lo {
        0
    } else {
        number(s, lo, hi - 1) * 10 + digit(s[hi - 1])
    }
}

/// `s` has the shape `YYYY-MM-DD`: ten bytes, digits but for two dashes.
pub open spec fn iso_shape(s: Seq<u8>) -> bool {
    &&& s.len() == 10
    &&& s[4] == 45u8
    &&& s[7] == 45u8
    &&& forall|i: int| 0 <= i < 10 && i != 4 && i != 7 ==> is_digit(#[trigger] s[i])
}

/// The day that the text `s` names in the form `YYYY-MM-DD`, if it names one.
pub open spec fn iso_day(s: Seq<u8>) -> Option<int> {
    if iso_shape(s) && valid_date(number(s, 0, 4), number(s, 5, 7), number(s, 8, 10)) {
        Some(day_of(number(s, 0, 4), number(s, 5, 7), number(s, 8, 10)))
    } else {
        None
    }
}

fn read_number(b: &[u8], lo: usize, hi: usize) -> (r: u32)
    requires
        lo <= hi <= b@.len(),
        hi - lo <= 4,
        forall|i: int| lo <= i < hi ==> is_digit(#[trigger] b@[i]),
    ensures
        r as int == number(b@, lo as int, hi as int),
{
    let mut acc: u32 = 0;
    let mut i: usize = lo;
    while i < hi
        invariant
            lo <= i <= hi <= b@.len(),
            hi - lo <= 4,
            forall|j: int| lo <= j < hi ==> is_digit(#[trigger] b@[j]),
            acc as int == number(b@, lo as int, i as int),
            acc as int <= pow10((i - lo) as nat) - 1,
        decreases hi - i,
    {
        assert(is_digit(b@[i as int]));
        proof {
            lemma_pow10_step((i - lo) as nat);
        }
        acc = acc * 10 + (b[i] - 48) as u32;
        i = i + 1;
    }
    acc
}

pub open spec fn pow10(n: nat) -> int
    decreases n,
{
    if n == 0 {
        1
    } else {
        10 * pow10((n - 1) as nat)
    }
}

proof fn lemma_pow10_step(n: nat)
    ensures
        pow10(n + 1) == 10 * pow10(n),
        n < 4 ==> pow10(n + 1) <= 10000,
{
    reveal_with_fuel(pow10, 5);
}

/// The day number of an ISO `YYYY-MM-DD` date, or `None` when `text` is not one.
pub fn parse_iso_date(text: &str) -> (r: Option<Day>)
    ensures
        r matches Some(n) ==> iso_day(text.spec_bytes()) == Some(n as int),
        r is None ==> iso_day(text.spec_bytes()) is None,
{
    let b = text.as_bytes();
    if b.len() != 10 || b[4] != 45u8 || b[7] != 45u8 {
        return None;
    }
    let mut i: usize = 0;
    while i < 10
        invariant
            b@ == text.spec_bytes(),
            b@.len() == 10,
            0 <= i <= 10,
            forall|j: int| 0 <= j < i && j != 4 && j != 7 ==> is_digit(#[trigger] b@[j]),
        decreases 10 - i,
    {
        if i != 4 && i != 7 && (b[i] < 48u8 || b[i] > 57u8) {
            assert(!is_digit(b@[i as int]));
            return None;
        }
        i = i + 1;
    }
    let y = read_number(b, 0, 4);
    let m = read_number(b, 5, 7);
    let d = read_number(b, 8, 10);
    day_number(y, m, d)
}


proof fn lemma_year_length(y: int)
    requires
        y >= 1,
    ensures
        days_before_year(y + 1) - days_before_year(y) == if leap(y) { 366int } else { 365int },
{
    let p = y - 1;
    assert(((p + 1) / 4 - p / 4 == 1) == (y % 4 == 0)) by (nonlinear_arith)
        requires
            p >= 0,
            y == p + 1,
    ;
    assert(((p + 1) / 100 - p / 100 == 1) == (y % 100 == 0)) by (nonlinear_arith)
        requires
            p >= 0,
            y == p + 1,
    ;
    assert(((p + 1) / 400 - p / 400 == 1) == (y % 400 == 0)) by (nonlinear_arith)
        requires
            p >= 0,
            y == p + 1,
    ;
    assert(0 <= (p + 1) / 4 - p / 4 <= 1) by (nonlinear_arith)
        requires
            p >= 0,
    ;
    assert(0 <= (p + 1) / 100 - p / 100 <= 1) by (nonlinear_arith)
        requires
            p >= 0,
    ;
    assert(0 <= (p + 1) / 400 - p / 400 <= 1) by (nonlinear_arith)
        requires
            p >= 0,
    ;
    assert(y % 400 == 0 ==> y % 100 == 0 && y % 4 == 0) by (nonlinear_arith);
    assert(y % 100 == 0 ==> y % 4 == 0) by (nonlinear_arith);
}

/// Day numbers run without gaps: the day after any calendar date, whether in the same
/// month, the next month or the next year, has the next day number. So the difference
/// of two day numbers is the count of nights between them.
pub proof fn day_numbers_are_consecutive(y: int, m: int, d: int)
    requires
        valid_date(y, m, d),
    ensures
        d < days_in_month(y, m) ==> day_of(y, m, d + 1) == day_of(y, m, d) + 1,
        d == days_in_month(y, m) && m < 12 ==> day_of(y, m + 1, 1) == day_of(y, m, d) + 1,
        d == days_in_month(y, m) && m == 12 ==> day_of(y + 1, 1, 1) == day_of(y, m, d) + 1,
{
    if d == days_in_month(y, m) && m == 12 {
        lemma_year_length(y);
        assert(days_before_month(y, 12) == 334 + if leap(y) { 1int } else { 0int }) by {
            reveal_with_fuel(days_before_month, 13);
        }
    }
}

} // verus!
