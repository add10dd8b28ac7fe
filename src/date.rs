//! Calendar dates as plain year, month and day values.
use chrono::Datelike;
use vstd::prelude::*;

verus! {

/// Largest year a date may carry (document dates have four-digit years).
pub const MAX_YEAR: u16 = 9999;

/// A proleptic Gregorian calendar date.
#[derive(Clone, Copy, Debug, PartialEq, Eq, Structural)]
pub struct Date {
    pub year: u16,
    pub month: u8,
    pub day: u8,
}

pub open spec fn is_leap_year(y: int) -> bool {
    (y % 4 == 0 && y % 100 != 0) || y % 400 == 0
}

pub open spec fn days_in_month(y: int, m: int) -> int {
    if m == 2 {
        if is_leap_year(y) { 29 } else { 28 }
    } else if m == 4 || m == 6 || m == 9 || m == 11 {
        30
    } else {
        31
    }
}

impl Date {
    /// The date names a real day within the supported years.
    pub open spec fn valid(self) -> bool {
        &&& self.year <= MAX_YEAR
        &&& 1 <= self.month <= 12
        &&& 1 <= self.day <= days_in_month(self.year as int, self.month as int)
    }

    /// Days since 1970-01-01 (negative before it).
    pub open spec fn day_number(self) -> int {
        let m = self.month as int;
        let y = if m <= 2 { self.year as int - 1 } else { self.year as int };
        let mp = if m > 2 { m - 3 } else { m + 9 };
        let doy = (153 * mp + 2) / 5 + self.day as int - 1;
        365 * y + y / 4 - y / 100 + y / 400 + doy - 719468
    }

    /// Day of the week, 0 for Sunday through 6 for Saturday.
    pub open spec fn weekday(self) -> int {
        (self.day_number() + 4) % 7
    }

    /// Which occurrence of its weekday within its month this date is (1 for the first).
    pub open spec fn week_of_month(self) -> int {
        (self.day as int - 1) / 7 + 1
    }

    /// Lexicographic order on (year, month, day), which is calendar order.
    pub open spec fn before(self, other: Date) -> bool {
        self.year < other.year || (self.year == other.year && (self.month < other.month || (
        self.month == other.month && self.day < other.day)))
    }

    /// The following calendar day, if it is still within the supported years.
    pub open spec fn succ(self) -> Option<Date> {
        if (self.day as int) < days_in_month(self.year as int, self.month as int) {
            Some(Date { year: self.year, month: self.month, day: (self.day + 1) as u8 })
        } else if self.month < 12 {
            Some(Date { year: self.year, month: (self.month + 1) as u8, day: 1 })
        } else if self.year < MAX_YEAR {
            Some(Date { year: (self.year + 1) as u16, month: 1, day: 1 })
        } else {
            None
        }
    }
}

/// The `count` consecutive days that start at `from`, cut short at the last supported day.
pub open spec fn days_from(from: Date, count: nat) -> Seq<Date>
    decreases count,
{
    if count == 0 {
        Seq::empty()
    } else {
        match from.succ() {
            Some(next) => seq![from] + days_from(next, (count - 1) as nat),
            None => seq![from],
        }
    }
}

/// Every day of a horizon that starts at a valid date is valid.
pub proof fn lemma_days_from_valid(from: Date, count: nat)
    requires
        from.valid(),
    ensures
        forall|i: int| 0 <= i < days_from(from, count).len() ==> (#[trigger] days_from(from, count)[i]).valid(),
    decreases count,
{
    if count > 0 {
        if let Some(n) = from.succ() {
            lemma_days_from_valid(n, (count - 1) as nat);
            let s = days_from(from, count);
            assert forall|i: int| 0 <= i < s.len() implies (#[trigger] s[i]).valid() by {
                if i > 0 {
                    assert(s[i] == days_from(n, (count - 1) as nat)[i - 1]);
                }
            }
        }
    }
}

/// Relies on chrono's `NaiveDate::from_ymd_opt`, `Datelike::weekday` and
/// `Weekday::num_days_from_sunday`: the day of the week of a valid date.
#[verifier::external_body]
fn chrono_weekday(d: Date) -> (r: u8)
    requires
        d.valid(),
    ensures
        r as int == d.weekday(),
{
    let date = chrono::NaiveDate::from_ymd_opt(d.year as i32, d.month as u32, d.day as u32).unwrap();
    date.weekday().num_days_from_sunday() as u8
}

/// Day of the week of `d`, 0 for Sunday through 6 for Saturday.
pub fn weekday_of(d: Date) -> (r: u8)
    requires
        d.valid(),
    ensures
        r as int == d.weekday(),
        r < 7,
{
    chrono_weekday(d)
}

pub(crate) fn month_length(year: u16, month: u8) -> (r: u8)
    requires
        1 <= month <= 12,
    ensures
        r as int == days_in_month(year as int, month as int),
{
    if month == 2 {
        if (year % 4 == 0 && year % 100 != 0) || year % 400 == 0 {
            29
        } else {
            28
        }
    } else if month == 4 || month == 6 || month == 9 || month == 11 {
        30
    } else {
        31
    }
}

/// The day after `d`, or `None` after the last day of the largest supported year.
pub fn next_day(d: Date) -> (r: Option<Date>)
    requires
        d.valid(),
    ensures
        r == d.succ(),
        r matches Some(n) ==> n.valid() && d.before(n),
{
    let len = month_length(d.year, d.month);
    if d.day < len {
        Some(Date { year: d.year, month: d.month, day: d.day + 1 })
    } else if d.month < 12 {
        Some(Date { year: d.year, month: d.month + 1, day: 1 })
    } else if d.year < MAX_YEAR {
        Some(Date { year: d.year + 1, month: 1, day: 1 })
    } else {
        None
    }
}

/// The weekdays in display order for a week that starts on `first_day` (0 for Sunday).
pub fn week_order(first_day: u8) -> (r: Vec<u8>)
    requires
        first_day < 7,
    ensures
        r@.len() == 7,
        forall|i: int| 0 <= i < 7 ==> r@[i] as int == (first_day as int + i) % 7,
{
    let mut r: Vec<u8> = Vec::new();
    let mut i: u8 = 0;
    while i < 7
        invariant
            first_day < 7,
            i <= 7,
            r@.len() == i,
            forall|j: int| 0 <= j < i ==> r@[j] as int == (first_day as int + j) % 7,
        decreases 7 - i,
    {
        r.push((first_day + i) % 7);
        i = i + 1;
    }
    r
}

/// Whether `a` comes strictly before `b` in the calendar.
pub fn date_before(a: Date, b: Date) -> (r: bool)
    ensures
        r == a.before(b),
{
    a.year < b.year || (a.year == b.year && (a.month < b.month || (a.month == b.month && a.day
        < b.day)))
}

} // verus!
