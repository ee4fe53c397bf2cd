//! Calendar dates without time of day, and the two windows that a report compares.

use crate::text::{four_digit_text, four_digits, two_digit_text, two_digits};
use vstd::prelude::*;
use vstd::string::StringExecFns;

verus! {

/// The first year in which a date can be represented.
pub const MIN_YEAR: i32 = -262143;

/// The last year in which a date can be represented.
pub const MAX_YEAR: i32 = 262142;

/// Whether `year` is a leap year of the proleptic Gregorian calendar.
pub open spec fn is_leap_year(year: int) -> bool {
    year % 4 == 0 && (year % 100 != 0 || year % 400 == 0)
}

/// The number of days of `month` in `year`.
pub open spec fn days_in_month(year: int, month: int) -> int {
    if month == 2 {
        if is_leap_year(year) { 29 } else { 28 }
    } else if month == 4 || month == 6 || month == 9 || month == 11 {
        30
    } else {
        31
    }
}

/// The number of days of `year` that lie before the first day of `month`.
pub open spec fn days_before_month(year: int, month: int) -> int {
    let leap: int = if is_leap_year(year) { 1 } else { 0 };
    if month <= 1 {
        0
    } else if month == 2 {
        31
    } else if month == 3 {
        59 + leap
    } else if month == 4 {
        90 + leap
    } else if month == 5 {
        120 + leap
    } else if month == 6 {
        151 + leap
    } else if month == 7 {
        181 + leap
    } else if month == 8 {
        212 + leap
    } else if month == 9 {
        243 + leap
    } else if month == 10 {
        273 + leap
    } else if month == 11 {
        304 + leap
    } else {
        334 + leap
    }
}

/// The number of days between the first day of year 0 and the first day of `year`
/// (negative before year 0).
pub open spec fn days_before_year(year: int) -> int {
    365 * year + (year + 3) / 4 - (year + 99) / 100 + (year + 399) / 400
}

/// A calendar date: year, month of the year and day of the month.
#[derive(Clone, Copy, Debug, PartialEq, Eq, Structural)]
pub struct Date {
    pub year: i32,
    pub month: u32,
    pub day: u32,
}

impl Date {
    /// The date exists in the calendar and its year can be represented.
    pub open spec fn is_valid(self) -> bool {
        &&& MIN_YEAR <= self.year <= MAX_YEAR
        &&& 1 <= self.month <= 12
        &&& 1 <= self.day <= days_in_month(self.year as int, self.month as int)
    }

    /// The position of the date on the line of days: consecutive dates differ by one.
    pub open spec fn day_number(self) -> int {
        days_before_year(self.year as int) + days_before_month(self.year as int, self.month as int)
            + self.day
    }

    /// The first day of the month that the date lies in.
    pub open spec fn first_of_month(self) -> Date {
        Date { year: self.year, month: self.month, day: 1 }
    }

    /// The first day of the month before the one that the date lies in.
    pub open spec fn first_of_previous_month(self) -> Date {
        if self.month == 1 {
            Date { year: (self.year - 1) as i32, month: 12, day: 1 }
        } else {
            Date { year: self.year, month: (self.month - 1) as u32, day: 1 }
        }
    }

    /// The date that follows this one.
    pub open spec fn next_day(self) -> Date {
        if self.day < days_in_month(self.year as int, self.month as int) {
            Date { year: self.year, month: self.month, day: (self.day + 1) as u32 }
        } else if self.month < 12 {
            Date { year: self.year, month: (self.month + 1) as u32, day: 1 }
        } else {
            Date { year: (self.year + 1) as i32, month: 1, day: 1 }
        }
    }

    /// The date `days` days after this one.
    pub open spec fn plus_days(self, days: nat) -> Date
        decreases days,
    {
        if days == 0 {
            self
        } else {
            self.next_day().plus_days((days - 1) as nat)
        }
    }

    /// The last date that can be represented.
    pub open spec fn latest() -> Date {
        Date { year: MAX_YEAR, month: 12, day: 31 }
    }

    /// The first date that can be represented.
    pub open spec fn earliest() -> Date {
        Date { year: MIN_YEAR, month: 1, day: 1 }
    }
}

/// A date and its successor are one day apart.
pub proof fn lemma_next_day_number(d: Date)
    requires
        d.is_valid(),
        d != Date::latest(),
    ensures
        d.next_day().is_valid(),
        d.next_day().day_number() == d.day_number() + 1,
{
    lemma_year_length(d.year as int);
}

/// The line of days runs with the calendar: of two valid dates, the one that comes
/// first in the calendar has the smaller day number.
pub proof fn lemma_day_number_increases(a: Date, b: Date)
    requires
        a.is_valid(),
        b.is_valid(),
        a.year < b.year || (a.year == b.year && (a.month < b.month || (a.month == b.month && a.day
            < b.day))),
    ensures
        a.day_number() < b.day_number(),
{
    if a.year < b.year {
        lemma_day_of_year(a);
        lemma_day_of_year(b);
        lemma_years_increase(a.year + 1, b.year as int);
        lemma_year_length(a.year as int);
    } else if a.month < b.month {
        lemma_months_increase(a.year as int, a.month as int, b.month as int);
    }
}

/// Counting up to the next number counts one more multiple of `step` exactly where
/// the number is one.
proof fn lemma_multiples_step(n: int, step: int)
    requires
        step == 4 || step == 100 || step == 400,
    ensures
        (n + step) / step == (n + step - 1) / step + (if n % step == 0 {
            1int
        } else {
            0int
        }),
{
}

/// What divides by 400 divides by 100, and what divides by 100 divides by 4.
proof fn lemma_centuries(n: int)
    ensures
        n % 400 == 0 ==> n % 100 == 0,
        n % 100 == 0 ==> n % 4 == 0,
{
}

/// A year is 365 days long, and a leap year one day longer.
proof fn lemma_year_length(year: int)
    ensures
        days_before_year(year + 1) == days_before_year(year) + 365 + (if is_leap_year(year) {
            1int
        } else {
            0int
        }),
{
    lemma_multiples_step(year, 4);
    lemma_multiples_step(year, 100);
    lemma_multiples_step(year, 400);
    lemma_centuries(year);
}

/// A later year starts no earlier.
proof fn lemma_years_increase(from: int, to: int)
    requires
        from <= to,
    ensures
        days_before_year(from) <= days_before_year(to),
    decreases to - from,
{
    if from < to {
        lemma_year_length(to - 1);
        lemma_years_increase(from, to - 1);
    }
}

/// A valid date is one of the days of its year.
proof fn lemma_day_of_year(d: Date)
    requires
        d.is_valid(),
    ensures
        1 <= days_before_month(d.year as int, d.month as int) + d.day <= 365 + (if is_leap_year(
            d.year as int,
        ) {
            1int
        } else {
            0int
        }),
{
}

/// A later month of a year starts after every day of an earlier one.
proof fn lemma_months_increase(year: int, first: int, second: int)
    requires
        1 <= first < second <= 12,
    ensures
        days_before_month(year, first) + days_in_month(year, first) <= days_before_month(
            year,
            second,
        ),
{
}

/// Two valid dates with the same day number are the same date.
pub proof fn lemma_day_number_injective(a: Date, b: Date)
    requires
        a.is_valid(),
        b.is_valid(),
        a.day_number() == b.day_number(),
    ensures
        a == b,
{
    if a.year < b.year || (a.year == b.year && (a.month < b.month || (a.month == b.month && a.day
        < b.day))) {
        lemma_day_number_increases(a, b);
    } else if a != b {
        lemma_day_number_increases(b, a);
    }
}

/// Every valid date lies between the first and the last date that can be represented.
pub proof fn lemma_day_number_bounds(d: Date)
    requires
        d.is_valid(),
    ensures
        Date::earliest().day_number() <= d.day_number() <= Date::latest().day_number(),
        d != Date::latest() ==> d.day_number() < Date::latest().day_number(),
        d != Date::earliest() ==> Date::earliest().day_number() < d.day_number(),
{
    if d != Date::latest() {
        lemma_day_number_increases(d, Date::latest());
    }
    if d != Date::earliest() {
        lemma_day_number_increases(Date::earliest(), d);
    }
}

/// Stepping day by day arrives at the date whose day number is that much larger.
pub proof fn lemma_plus_days_number(d: Date, days: nat)
    requires
        d.is_valid(),
        d.day_number() + days <= Date::latest().day_number(),
    ensures
        d.plus_days(days).is_valid(),
        d.plus_days(days).day_number() == d.day_number() + days,
    decreases days,
{
    if days > 0 {
        lemma_day_number_bounds(d);
        lemma_next_day_number(d);
        lemma_plus_days_number(d.next_day(), (days - 1) as nat);
    }
}

/// The month before the one that `d` lies in starts as many days before the first of
/// `d`'s month as that earlier month has days.
pub proof fn lemma_previous_month_length(d: Date)
    requires
        d.is_valid(),
        d.year > MIN_YEAR || d.month > 1,
    ensures
        d.first_of_previous_month().is_valid(),
        d.first_of_month().day_number() - d.first_of_previous_month().day_number()
            == days_in_month(
            d.first_of_previous_month().year as int,
            d.first_of_previous_month().month as int,
        ),
{
    lemma_year_length(d.year - 1);
}

/// The date with the given year, month and day, whether or not it exists.
pub open spec fn date_of(year: i32, month: u32, day: u32) -> Date {
    Date { year, month, day }
}

/// Calls `chrono::NaiveDate::from_ymd_opt`. Believed of it: it answers `Some` exactly
/// for the days that exist in the proleptic Gregorian calendar in a year between
/// `MIN_YEAR` and `MAX_YEAR`, and the date it gives has the year, month and day asked for.
#[verifier::external_body]
fn checked_date(year: i32, month: u32, day: u32) -> (r: Option<Date>)
    ensures
        date_of(year, month, day).is_valid() ==> r == Some(date_of(year, month, day)),
        !date_of(year, month, day).is_valid() ==> r.is_none(),
{
    match chrono::NaiveDate::from_ymd_opt(year, month, day) {
        Some(d) => Some(
            Date {
                year: chrono::Datelike::year(&d),
                month: chrono::Datelike::month(&d),
                day: chrono::Datelike::day(&d),
            },
        ),
        None => None,
    }
}

/// Calls `chrono::NaiveDate::checked_add_signed` with a whole number of days. Believed
/// of it: the date it gives lies `days` days after `date` (before it, where `days` is
/// negative), and it answers `None` exactly where that day is before the first or
/// after the last date that can be represented.
#[verifier::external_body]
fn checked_shift(date: Date, days: i32) -> (r: Option<Date>)
    requires
        date.is_valid(),
    ensures
        match r {
            Some(e) => e.is_valid() && e.day_number() == date.day_number() + days,
            None => date.day_number() + days < Date::earliest().day_number()
                || date.day_number() + days > Date::latest().day_number(),
        },
{
    let base = chrono::NaiveDate::from_ymd_opt(date.year, date.month, date.day)?;
    let moved = base.checked_add_signed(chrono::TimeDelta::days(i64::from(days)))?;
    Some(
        Date {
            year: chrono::Datelike::year(&moved),
            month: chrono::Datelike::month(&moved),
            day: chrono::Datelike::day(&moved),
        },
    )
}

/// The text of a year: in four digits from the year 0 to the year 9999; before, a
/// minus sign and the years before the year 0 in four digits or more; after, a plus
/// sign and the year in its digits.
pub open spec fn year_text(year: int) -> Seq<char> {
    if year < 0 {
        "-"@ + four_digit_text((-year) as nat)
    } else if year > 9999 {
        "+"@ + four_digit_text(year as nat)
    } else {
        four_digit_text(year as nat)
    }
}

impl Date {
    /// The text of the date as a request for costs names it: the year, the month in
    /// two digits and the day in two digits, with a hyphen between them.
    pub open spec fn iso_text(self) -> Seq<char> {
        year_text(self.year as int) + "-"@ + two_digit_text(self.month as nat) + "-"@
            + two_digit_text(self.day as nat)
    }

    /// The text of the date as a request for costs names it.
    pub fn to_iso_text(self) -> (r: String)
        requires
            self.is_valid(),
        ensures
            r@ == self.iso_text(),
    {
        let mut text = if self.year < 0 {
            "-".to_owned()
        } else if self.year > 9999 {
            "+".to_owned()
        } else {
            String::new()
        };
        let years: usize = if self.year < 0 {
            (-self.year) as usize
        } else {
            self.year as usize
        };
        let year = four_digits(years);
        let month = two_digits(self.month as usize);
        let day = two_digits(self.day as usize);
        text.append(year.as_str());
        text.append("-");
        text.append(month.as_str());
        text.append("-");
        text.append(day.as_str());
        text
    }

    /// The date with the given year, month and day, if there is such a day.
    pub fn new(year: i32, month: u32, day: u32) -> (r: Option<Date>)
        ensures
            date_of(year, month, day).is_valid() ==> r == Some(date_of(year, month, day)),
            !date_of(year, month, day).is_valid() ==> r.is_none(),
    {
        checked_date(year, month, day)
    }

    /// The date `days` days after this one (before it, where `days` is negative), or
    /// `None` where that day cannot be represented.
    pub fn checked_add_days(self, days: i32) -> (r: Option<Date>)
        requires
            self.is_valid(),
        ensures
            match r {
                Some(e) => e.is_valid() && e.day_number() == self.day_number() + days,
                None => self.day_number() + days < Date::earliest().day_number()
                    || self.day_number() + days > Date::latest().day_number(),
            },
            r.is_some() && days >= 0 ==> r == Some(self.plus_days(days as nat)),
    {
        let r = checked_shift(self, days);
        proof {
            if r.is_some() && days >= 0 {
                lemma_day_number_bounds(r.unwrap());
                lemma_plus_days_number(self, days as nat);
                lemma_day_number_injective(r.unwrap(), self.plus_days(days as nat));
            }
        }
        r
    }
}

/// The window from the first day of `today`'s month up to and including `today`:
/// its first day, and the day after its last.
pub fn month_to_date(today: Date) -> (r: (Date, Date))
    requires
        today.is_valid(),
        today != Date::latest(),
    ensures
        r.0 == today.first_of_month(),
        r.1 == today.next_day(),
        r.1 == today.plus_days(1),
        r.0.is_valid(),
        r.1.is_valid(),
        r.1.day_number() - r.0.day_number() == today.day,
{
    let start = checked_date(today.year, today.month, 1);
    proof {
        lemma_day_number_bounds(today);
        lemma_next_day_number(today);
        assert(today.plus_days(1) == today.next_day()) by {
            reveal_with_fuel(Date::plus_days, 2);
        }
    }
    let end_exclusive = today.checked_add_days(1);
    (start.unwrap(), end_exclusive.unwrap())
}

/// The window of the month before `today`'s that is as many days long as `today` lies
/// into its own month: it starts on the first day of the previous month, and the day
/// after its last is the start moved on by `today`'s day of the month. No account is
/// taken of how long the previous month is.
pub fn previous_month_same_point(today: Date) -> (r: (Date, Date))
    requires
        today.is_valid(),
        today.year > MIN_YEAR || today.month > 1,
    ensures
        r.0 == today.first_of_previous_month(),
        r.1 == r.0.plus_days(today.day as nat),
        r.0.is_valid(),
        r.1.is_valid(),
        r.1.day_number() - r.0.day_number() == today.day,
        r.1.day_number() <= today.day_number(),
{
    let first_of_this_month = checked_date(today.year, today.month, 1).unwrap();
    proof {
        lemma_previous_month_length(today);
        lemma_day_number_bounds(today.first_of_previous_month());
        lemma_day_number_bounds(today);
    }
    let last_of_prev_month = first_of_this_month.checked_add_days(-1).unwrap();
    proof {
        let p = today.first_of_previous_month();
        let last = Date { year: p.year, month: p.month, day: days_in_month(p.year as int, p.month as int) as u32 };
        assert(last.is_valid());
        assert(last.day_number() == last_of_prev_month.day_number());
        lemma_day_number_injective(last, last_of_prev_month);
    }
    let prev_start = checked_date(last_of_prev_month.year, last_of_prev_month.month, 1).unwrap();
    let day = today.day;
    let prev_end_exclusive = prev_start.checked_add_days(day as i32).unwrap();
    (prev_start, prev_end_exclusive)
}

} // verus!
